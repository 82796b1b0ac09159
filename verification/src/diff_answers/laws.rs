//! What holds of every audit.

use vstd::prelude::*;
use super::{
    chain, lists_within, others_below, others_of, pair_within, target_pairs, unstable_keys,
    IndexPair,
};
use crate::matcher::{compare_spec, MismatchView};
use crate::{DiffCriteria, QKey, ResponseListView};

verus! {

/// No query on which the other servers disagree is counted against the
/// target: the two outcomes of the audit share no query.
pub proof fn lemma_outcomes_disjoint(
    lists: Seq<ResponseListView>,
    pair: IndexPair,
    criteria: Seq<DiffCriteria>,
    others: Set<QKey>,
)
    ensures
        forall|m: MismatchView, key: QKey| #[trigger]
            target_pairs(lists, pair, criteria, others).contains((m, key)) ==> !others.contains(key),
{
}

/// Whether all the responses of a list are equal under the criteria: no
/// two of them show a mismatch.
pub open spec fn all_equal(list: ResponseListView, criteria: Seq<DiffCriteria>) -> bool {
    forall|a: int, b: int|
        0 <= a < list.replies.len() && 0 <= b < list.replies.len() ==> #[trigger] compare_spec(
            list.replies[a],
            list.replies[b],
            criteria,
        ) == Set::<MismatchView>::empty()
}

/// A query whose servers all gave equal responses is in neither outcome of
/// the audit: not among the queries on which the others disagree, and with
/// no mismatch counted against the target. Stated of a key: of every list
/// stored under it.
pub proof fn lemma_consistent_in_neither(
    lists: Seq<ResponseListView>,
    pair: IndexPair,
    pairs_others: Seq<IndexPair>,
    criteria: Seq<DiffCriteria>,
    key: QKey,
)
    requires
        lists_within(lists, pairs_others),
        forall|i: int|
            0 <= i < lists.len() ==> pair_within(pair, (#[trigger] lists[i]).replies.len()),
        forall|i: int|
            0 <= i < lists.len() && (#[trigger] lists[i]).key == key ==> all_equal(lists[i], criteria),
    ensures
        !unstable_keys(lists, pairs_others, criteria).contains(key),
        forall|m: MismatchView|
            !(#[trigger] target_pairs(
                lists,
                pair,
                criteria,
                unstable_keys(lists, pairs_others, criteria),
            ).contains((m, key))),
{
    let others = unstable_keys(lists, pairs_others, criteria);
    assert forall|m: MismatchView|
        !(#[trigger] target_pairs(lists, pair, criteria, others).contains((m, key))) by {}
}

/// With two servers, the target and one other, there is no pair of other
/// servers to compare: no query counts as unstable, and every mismatch
/// between the other server and the target counts against the target.
pub proof fn lemma_two_servers(
    servers: Seq<Seq<char>>,
    target: Seq<char>,
    lists: Seq<ResponseListView>,
    pair: IndexPair,
    criteria: Seq<DiffCriteria>,
)
    requires
        servers.len() == 2,
        servers.contains(target),
    ensures
        chain(others_of(servers, target)) == Seq::<IndexPair>::empty(),
        unstable_keys(lists, chain(others_of(servers, target)), criteria) == Set::<QKey>::empty(),
        target_pairs(
            lists,
            pair,
            criteria,
            unstable_keys(lists, chain(others_of(servers, target)), criteria),
        ) == target_pairs(lists, pair, criteria, Set::<QKey>::empty()),
{
    reveal_with_fuel(others_below, 3);
}

} // verus!
