//! The audit of the stored responses: which queries the reference servers
//! already disagree on among themselves, and on which of the others the
//! target disagrees with its reference, mismatch by mismatch.

use vstd::prelude::*;
use vstd::string::*;
use std::collections::BTreeSet;
use crate::error::Error;
use crate::matcher::{
    all_presented, compare, compare_spec, expected_of, got_of, views, MismatchSet, MismatchView,
};
use crate::sets::insert_u32;
use crate::wire::texts;
use crate::{DiffCriteria, QKey, ResponseListView, ServerResponseList};

pub mod disagreements;
pub mod laws;

pub use disagreements::{
    target_disagreements_from_diffs, Disagreement, DisagreementView, Disagreements, Shown,
};
use disagreements::{
    all_shown_in, counted_pairs, distinct, each_has_query, pair_from, pairs, shown,
};

verus! {

/// The positions of two servers whose responses are compared, the one
/// that is expected first.
pub type IndexPair = (usize, usize);

// ----- Which servers to compare --------

/// The positions below `n` of the servers that are not the target, in
/// declared order.
pub open spec fn others_below(servers: Seq<Seq<char>>, target: Seq<char>, n: nat) -> Seq<usize>
    decreases n,
{
    if n == 0 {
        Seq::empty()
    } else {
        let before = others_below(servers, target, (n - 1) as nat);
        if servers[n - 1] != target {
            before.push((n - 1) as usize)
        } else {
            before
        }
    }
}

/// The positions of the servers that are not the target, in declared order.
pub open spec fn others_of(servers: Seq<Seq<char>>, target: Seq<char>) -> Seq<usize> {
    others_below(servers, target, servers.len())
}

/// Each position of a list paired with the one after it.
pub open spec fn chain(positions: Seq<usize>) -> Seq<IndexPair> {
    Seq::new(
        if positions.len() == 0 {
            0
        } else {
            (positions.len() - 1) as nat
        },
        |i: int| (positions[i], positions[i + 1]),
    )
}

/// Whether `at` is the first position at which the target stands.
pub open spec fn first_position(servers: Seq<Seq<char>>, target: Seq<char>, at: int) -> bool {
    &&& 0 <= at < servers.len()
    &&& servers[at] == target
    &&& forall|i: int| 0 <= i < at ==> servers[i] != target
}

/// The first position at which the target stands among the servers.
pub open spec fn target_position(servers: Seq<Seq<char>>, target: Seq<char>) -> int {
    choose|at: int| first_position(servers, target, at)
}

/// The pair that the target is judged by: the first of the other servers
/// as the reference, and the target.
pub open spec fn reference_pair(servers: Seq<Seq<char>>, target: Seq<char>) -> IndexPair {
    (others_of(servers, target)[0], target_position(servers, target) as usize)
}

/// Returns the positions at which responses are compared.
///
/// The first value pairs one of the other servers, the first of them, with
/// the target. The second is the chain of the other servers: each paired
/// with the next, so that they all agree if each pair does.
///
/// The target has to be one of the servers. One server at least has to be
/// another one: there is nothing to compare the target with otherwise.
pub fn indices_to_compare(target: &str, servers: &Vec<String>) -> (r: Result<
    (IndexPair, Vec<IndexPair>),
    Error,
>)
    requires
        others_of(texts(servers@), target@).len() > 0,
    ensures
        r is Ok <==> texts(servers@).contains(target@),
        r is Err ==> r == Err::<(IndexPair, Vec<IndexPair>), Error>(Error::InvalidServerName),
        r matches Ok((reference, others)) ==> {
            &&& first_position(texts(servers@), target@, reference.1 as int)
            &&& reference == reference_pair(texts(servers@), target@)
            &&& others@ == chain(others_of(texts(servers@), target@))
        },
{
    let ghost all = texts(servers@);
    let wanted = String::from_str(target);
    let mut i_target: Option<usize> = None;
    let mut i_others: Vec<usize> = Vec::new();
    let mut i: usize = 0;
    while i < servers.len()
        invariant
            i <= servers.len(),
            all == texts(servers@),
            wanted@ == target@,
            i_others@ == others_below(all, target@, i as nat),
            match i_target {
                Some(at) => first_position(all, target@, at as int) && at < i,
                None => forall|k: int| 0 <= k < i ==> all[k] != target@,
            },
        decreases servers.len() - i,
    {
        if servers[i] == wanted {
            if i_target.is_none() {
                i_target = Some(i);
            }
        } else {
            i_others.push(i);
        }
        i += 1;
    }
    let at = match i_target {
        Some(at) => at,
        None => {
            return Err(Error::InvalidServerName);
        },
    };
    let pair_target: IndexPair = (i_others[0], at);
    let mut pairs_others: Vec<IndexPair> = Vec::new();
    let mut j: usize = 0;
    while j < i_others.len() - 1
        invariant
            i_others@.len() > 0,
            j < i_others@.len(),
            pairs_others@ == chain(i_others@).take(j as int),
        decreases i_others.len() - j,
    {
        pairs_others.push((i_others[j], i_others[j + 1]));
        j += 1;
    }
    Ok((pair_target, pairs_others))
}

// ----- One response list --------

/// Whether the positions of a pair lie within `n` responses.
pub open spec fn pair_within(pair: IndexPair, n: nat) -> bool {
    pair.0 < n && pair.1 < n
}

/// Whether the positions of every pair lie within `n` responses.
pub open spec fn pairs_within(pairs: Seq<IndexPair>, n: nat) -> bool {
    forall|p: int| 0 <= p < pairs.len() ==> pair_within(#[trigger] pairs[p], n)
}

/// The mismatches between the two responses of a list that a pair names.
pub open spec fn pair_diff(list: ResponseListView, pair: IndexPair, criteria: Seq<DiffCriteria>)
    -> Set<MismatchView> {
    compare_spec(list.replies[pair.0 as int], list.replies[pair.1 as int], criteria)
}

/// Whether the responses of a list differ at one pair at least.
pub open spec fn disagree(list: ResponseListView, pairs: Seq<IndexPair>, criteria: Seq<DiffCriteria>)
    -> bool {
    exists|p: int|
        0 <= p < pairs.len() && pair_diff(list, #[trigger] pairs[p], criteria) != Set::<
            MismatchView,
        >::empty()
}

/// Whether the servers of some pair gave responses that differ.
pub fn others_disagree(list: &ServerResponseList, pairs: &Vec<IndexPair>, criteria: &[DiffCriteria])
    -> (r: bool)
    requires
        pairs_within(pairs@, list@.replies.len()),
    ensures
        r == disagree(list@, pairs@, criteria@),
{
    let mut p: usize = 0;
    while p < pairs.len()
        invariant
            p <= pairs.len(),
            pairs_within(pairs@, list@.replies.len()),
            forall|k: int|
                0 <= k < p ==> pair_diff(list@, #[trigger] pairs@[k], criteria@) == Set::<
                    MismatchView,
                >::empty(),
        decreases pairs.len() - p,
    {
        let (j, k) = pairs[p];
        let diff = compare(&list.replies[j], &list.replies[k], criteria);
        if !diff.is_empty() {
            return true;
        }
        p += 1;
    }
    false
}

/// The mismatches between the reference and the target of one list.
pub fn target_diff(list: &ServerResponseList, pair: IndexPair, criteria: &[DiffCriteria]) -> (r:
    MismatchSet)
    requires
        pair_within(pair, list@.replies.len()),
    ensures
        r@ == pair_diff(list@, pair, criteria@),
        all_presented(r.elements(), list@.replies[pair.0 as int], list@.replies[pair.1 as int]),
{
    compare(&list.replies[pair.0], &list.replies[pair.1], criteria)
}

// ----- All response lists --------

/// What each response list of a sequence stands for.
pub open spec fn list_views(lists: Seq<ServerResponseList>) -> Seq<ResponseListView> {
    lists.map_values(|l: ServerResponseList| l@)
}

/// Whether every list has room for every pair.
pub open spec fn lists_within(lists: Seq<ResponseListView>, pairs: Seq<IndexPair>) -> bool {
    forall|i: int| 0 <= i < lists.len() ==> pairs_within(pairs, (#[trigger] lists[i]).replies.len())
}

/// The keys of the lists in which the servers of some pair differ.
pub open spec fn unstable_keys(
    lists: Seq<ResponseListView>,
    pairs: Seq<IndexPair>,
    criteria: Seq<DiffCriteria>,
) -> Set<QKey> {
    Set::new(
        |key: QKey|
            exists|i: int|
                0 <= i < lists.len() && (#[trigger] lists[i]).key == key && disagree(
                    lists[i],
                    pairs,
                    criteria,
                ),
    )
}

/// The first pass: the queries on which the servers other than the target
/// disagree among themselves.
pub fn find_others_disagreements(
    lists: &Vec<ServerResponseList>,
    pairs: &Vec<IndexPair>,
    criteria: &[DiffCriteria],
) -> (r: BTreeSet<QKey>)
    requires
        lists_within(list_views(lists@), pairs@),
    ensures
        r@ == unstable_keys(list_views(lists@), pairs@, criteria@),
{
    let ghost all = list_views(lists@);
    let mut found: BTreeSet<QKey> = BTreeSet::new();
    let mut i: usize = 0;
    while i < lists.len()
        invariant
            i <= lists.len(),
            all == list_views(lists@),
            lists_within(all, pairs@),
            found@ == unstable_keys(all.take(i as int), pairs@, criteria@),
        decreases lists.len() - i,
    {
        assert(all[i as int] == lists@[i as int]@);
        let unstable = others_disagree(&lists[i], pairs, criteria);
        if unstable {
            insert_u32(&mut found, lists[i].key);
        }
        proof {
            let done = all.take(i as int);
            let next = all.take(i + 1);
            assert forall|key: QKey|
                unstable_keys(next, pairs@, criteria@).contains(key) <==> unstable_keys(
                    done,
                    pairs@,
                    criteria@,
                ).contains(key) || (unstable && key == all[i as int].key) by {
                if unstable && key == all[i as int].key {
                    assert(next[i as int] == all[i as int]);
                }
            }
        }
        i += 1;
    }
    assert(all.take(i as int) == all);
    found
}

/// The positions below `n` of the lists in which reference and target differ.
pub open spec fn differing_below(
    lists: Seq<ResponseListView>,
    pair: IndexPair,
    criteria: Seq<DiffCriteria>,
    n: nat,
) -> Seq<int>
    decreases n,
{
    if n == 0 {
        Seq::empty()
    } else {
        let before = differing_below(lists, pair, criteria, (n - 1) as nat);
        if pair_diff(lists[n - 1], pair, criteria) != Set::<MismatchView>::empty() {
            before.push(n - 1)
        } else {
            before
        }
    }
}

/// The positions of the lists in which reference and target differ.
pub open spec fn differing(lists: Seq<ResponseListView>, pair: IndexPair, criteria: Seq<DiffCriteria>)
    -> Seq<int> {
    differing_below(lists, pair, criteria, lists.len())
}

/// Whether `found` is the key of the list at position `at` with the
/// mismatches between its reference and its target.
pub open spec fn diff_at(
    found: (QKey, MismatchSet),
    lists: Seq<ResponseListView>,
    at: int,
    pair: IndexPair,
    criteria: Seq<DiffCriteria>,
) -> bool {
    &&& 0 <= at < lists.len()
    &&& found.0 == lists[at].key
    &&& found.1@ == pair_diff(lists[at], pair, criteria)
    &&& all_presented(
        found.1.elements(),
        lists[at].replies[pair.0 as int],
        lists[at].replies[pair.1 as int],
    )
}

/// Whether `found` holds, for each of the given positions in turn, the key
/// of the list at that position with the mismatches between its reference
/// and its target.
pub open spec fn diffs_of(
    found: Seq<(QKey, MismatchSet)>,
    lists: Seq<ResponseListView>,
    at: Seq<int>,
    pair: IndexPair,
    criteria: Seq<DiffCriteria>,
) -> bool {
    &&& found.len() == at.len()
    &&& forall|j: int|
        0 <= j < found.len() ==> #[trigger] diff_at(found[j], lists, at[j], pair, criteria)
}

/// The second pass: for each query on which the target differs from its
/// reference, the key and the mismatches, in the order of the lists.
pub fn find_target_diffs(lists: &Vec<ServerResponseList>, pair: IndexPair, criteria: &[DiffCriteria])
    -> (r: Vec<(QKey, MismatchSet)>)
    requires
        forall|i: int|
            0 <= i < lists@.len() ==> pair_within(pair, (#[trigger] lists@[i])@.replies.len()),
    ensures
        diffs_of(r@, list_views(lists@), differing(list_views(lists@), pair, criteria@), pair, criteria@),
{
    let ghost all = list_views(lists@);
    let mut found: Vec<(QKey, MismatchSet)> = Vec::new();
    let mut i: usize = 0;
    while i < lists.len()
        invariant
            i <= lists.len(),
            all == list_views(lists@),
            forall|k: int|
                0 <= k < lists@.len() ==> pair_within(pair, (#[trigger] lists@[k])@.replies.len()),
            diffs_of(found@, all, differing_below(all, pair, criteria@, i as nat), pair, criteria@),
        decreases lists.len() - i,
    {
        let diff = target_diff(&lists[i], pair, criteria);
        if !diff.is_empty() {
            let entry = (lists[i].key, diff);
            found.push(entry);
        }
        i += 1;
    }
    found
}

// ----- The audit as a whole --------

/// Each mismatch between reference and target with each query on which it
/// shows, the queries among `others` left out.
pub open spec fn target_pairs(
    lists: Seq<ResponseListView>,
    pair: IndexPair,
    criteria: Seq<DiffCriteria>,
    others: Set<QKey>,
) -> Set<(MismatchView, QKey)> {
    Set::new(
        |p: (MismatchView, QKey)|
            exists|i: int|
                0 <= i < lists.len() && (#[trigger] lists[i]).key == p.1 && !others.contains(p.1)
                    && pair_diff(lists[i], pair, criteria).contains(p.0),
    )
}

/// Whether `s` presents a mismatch between reference and target of `list`.
pub open spec fn shown_by(
    s: Shown,
    list: ResponseListView,
    pair: IndexPair,
    criteria: Seq<DiffCriteria>,
) -> bool {
    &&& pair_diff(list, pair, criteria).contains(s.view)
    &&& s.expected == expected_of(s.view, list.replies[pair.0 as int])
    &&& s.got == got_of(s.view, list.replies[pair.1 as int])
}

/// Whether every entry presents a mismatch between reference and target
/// of one of the lists.
pub open spec fn all_shown_by(
    model: Seq<DisagreementView>,
    lists: Seq<ResponseListView>,
    pair: IndexPair,
    criteria: Seq<DiffCriteria>,
) -> bool {
    forall|e: int|
        0 <= e < model.len() ==> exists|i: int|
            0 <= i < lists.len() && shown_by((#[trigger] model[e]).shown, #[trigger] lists[i], pair, criteria)
}

/// Whether every list holds one response for each of `n` servers.
pub open spec fn one_reply_each(lists: Seq<ResponseListView>, n: nat) -> bool {
    forall|i: int| 0 <= i < lists.len() ==> (#[trigger] lists[i]).replies.len() == n
}

/// What the audit finds.
#[derive(Debug)]
pub struct Audit {
    /// The queries on which the servers other than the target disagree.
    pub others_disagreements: BTreeSet<QKey>,
    /// What the target disagrees on with its reference, those queries left out.
    pub target_disagreements: Disagreements,
}

impl Audit {
    /// Whether the two outcomes are kept apart: no query on which the
    /// other servers disagree is counted against the target.
    pub open spec fn apart(&self) -> bool {
        forall|m: MismatchView, key: QKey| #[trigger]
            pairs(self.target_disagreements@).contains((m, key))
                ==> !self.others_disagreements@.contains(key)
    }
}

/// Audits the stored responses. The servers other than the target are
/// compared along their chain; a query on which two of them differ counts
/// as unstable. On every other query, a mismatch between the first of the
/// other servers and the target counts against the target.
///
/// Fails if the target is not one of the servers. Each list has to hold
/// one response per server, and one server has to be other than the target.
pub fn diff_answers(
    lists: &Vec<ServerResponseList>,
    servers: &Vec<String>,
    target: &str,
    criteria: &[DiffCriteria],
) -> (r: Result<Audit, Error>)
    requires
        others_of(texts(servers@), target@).len() > 0,
        one_reply_each(list_views(lists@), servers@.len()),
    ensures
        r is Ok <==> texts(servers@).contains(target@),
        r matches Err(e) ==> e == Error::InvalidServerName,
        r matches Ok(audit) ==> {
            &&& audit.others_disagreements@ == unstable_keys(
                list_views(lists@),
                chain(others_of(texts(servers@), target@)),
                criteria@,
            )
            &&& pairs(audit.target_disagreements@) == target_pairs(
                list_views(lists@),
                reference_pair(texts(servers@), target@),
                criteria@,
                audit.others_disagreements@,
            )
            &&& distinct(audit.target_disagreements@)
            &&& each_has_query(audit.target_disagreements@)
            &&& audit.apart()
            &&& all_shown_by(
                audit.target_disagreements@,
                list_views(lists@),
                reference_pair(texts(servers@), target@),
                criteria@,
            )
        },
{
    let ghost all = list_views(lists@);
    let (pair_target, pairs_others) = match indices_to_compare(target, servers) {
        Ok(found) => found,
        Err(e) => {
            return Err(e);
        },
    };
    proof {
        lemma_others_within(texts(servers@), target@, servers@.len());
        assert forall|i: int| 0 <= i < lists@.len() implies pair_within(
            pair_target,
            (#[trigger] lists@[i])@.replies.len(),
        ) by {
            assert(all[i] == lists@[i]@);
        }
    }
    let others_disagreements = find_others_disagreements(lists, &pairs_others, criteria);
    let diffs = find_target_diffs(lists, pair_target, criteria);
    let target_disagreements = target_disagreements_from_diffs(&diffs, &others_disagreements);
    proof {
        lemma_counted_is_target(diffs@, all, pair_target, criteria@, others_disagreements@);
        lemma_shown_by_lists(target_disagreements@, diffs@, all, pair_target, criteria@);
    }
    Ok(Audit { others_disagreements, target_disagreements })
}

/// An entry that is presented as a mismatch of the diffs is, presents a
/// mismatch between reference and target of one of the lists.
proof fn lemma_shown_by_lists(
    model: Seq<DisagreementView>,
    diffs: Seq<(QKey, MismatchSet)>,
    lists: Seq<ResponseListView>,
    pair: IndexPair,
    criteria: Seq<DiffCriteria>,
)
    requires
        all_shown_in(model, diffs),
        diffs_of(diffs, lists, differing(lists, pair, criteria), pair, criteria),
    ensures
        all_shown_by(model, lists, pair, criteria),
{
    let at = differing(lists, pair, criteria);
    assert forall|e: int| 0 <= e < model.len() implies exists|i: int|
        0 <= i < lists.len() && shown_by((#[trigger] model[e]).shown, #[trigger] lists[i], pair, criteria) by {
        let (d, j) = choose|d: int, j: int|
            0 <= d < diffs.len() && 0 <= j < diffs[d].1.elements().len() && shown(
                #[trigger] diffs[d].1.elements()[j],
            ) == model[e].shown;
        assert(diff_at(diffs[d], lists, at[d], pair, criteria));
        let m = diffs[d].1.elements()[j];
        diffs[d].1.lemma_elements();
        assert(views(diffs[d].1.elements())[j] == m@);
    }
}

/// The positions of the other servers lie below `n`.
proof fn lemma_others_within(servers: Seq<Seq<char>>, target: Seq<char>, n: nat)
    ensures
        forall|k: int|
            0 <= k < others_below(servers, target, n).len() ==> (#[trigger] others_below(
                servers,
                target,
                n,
            )[k]) < n,
    decreases n,
{
    if n > 0 {
        lemma_others_within(servers, target, (n - 1) as nat);
        assert(others_below(servers, target, n).len() <= others_below(
            servers,
            target,
            (n - 1) as nat,
        ).len() + 1);
    }
}

/// The positions below `n` at which reference and target differ are among
/// the differing positions below `n`.
proof fn lemma_differing_holds(
    lists: Seq<ResponseListView>,
    pair: IndexPair,
    criteria: Seq<DiffCriteria>,
    n: nat,
    i: int,
)
    requires
        0 <= i < n,
        pair_diff(lists[i], pair, criteria) != Set::<MismatchView>::empty(),
    ensures
        differing_below(lists, pair, criteria, n).contains(i),
    decreases n,
{
    let at = differing_below(lists, pair, criteria, n);
    if i == n - 1 {
        assert(at[at.len() - 1] == i);
    } else {
        lemma_differing_holds(lists, pair, criteria, (n - 1) as nat, i);
        let before = differing_below(lists, pair, criteria, (n - 1) as nat);
        let k = choose|k: int| 0 <= k < before.len() && before[k] == i;
        assert(at[k] == i);
    }
}

/// What is counted over the diffs of the second pass is what reference and
/// target differ in over the lists.
proof fn lemma_counted_is_target(
    diffs: Seq<(QKey, MismatchSet)>,
    lists: Seq<ResponseListView>,
    pair: IndexPair,
    criteria: Seq<DiffCriteria>,
    others: Set<QKey>,
)
    requires
        diffs_of(diffs, lists, differing(lists, pair, criteria), pair, criteria),
    ensures
        counted_pairs(diffs, others) == target_pairs(lists, pair, criteria, others),
{
    let at = differing(lists, pair, criteria);
    assert forall|p: (MismatchView, QKey)|
        counted_pairs(diffs, others).contains(p) <==> target_pairs(
            lists,
            pair,
            criteria,
            others,
        ).contains(p) by {
        if counted_pairs(diffs, others).contains(p) {
            let j = choose|j: int| 0 <= j < diffs.len() && pair_from(#[trigger] diffs[j], others, p);
            assert(diff_at(diffs[j], lists, at[j], pair, criteria));
        }
        if target_pairs(lists, pair, criteria, others).contains(p) {
            let i = choose|i: int|
                0 <= i < lists.len() && (#[trigger] lists[i]).key == p.1 && !others.contains(p.1)
                    && pair_diff(lists[i], pair, criteria).contains(p.0);
            lemma_differing_holds(lists, pair, criteria, lists.len(), i);
            let j = choose|j: int| 0 <= j < at.len() && at[j] == i;
            assert(diff_at(diffs[j], lists, at[j], pair, criteria));
        }
    }
}

} // verus!
