//! The disagreements of the target: each mismatch that it showed, with the
//! queries on which it showed it.

use vstd::prelude::*;
use std::collections::BTreeSet;
use crate::matcher::{views, Mismatch, MismatchSet, MismatchView};
use crate::sets::{contains_u32, insert_u32};
use crate::QKey;

verus! {

/// How a mismatch is told apart and how it is presented.
pub struct Shown {
    /// What identifies the mismatch.
    pub view: MismatchView,
    /// The text for what was expected.
    pub expected: Seq<char>,
    /// The text for what was got.
    pub got: Seq<char>,
}

/// How a mismatch is told apart and how it is presented.
pub open spec fn shown(m: Mismatch) -> Shown {
    Shown { view: m@, expected: m.expected_text(), got: m.got_text() }
}

/// One mismatch with the queries on which the target showed it.
#[derive(Debug)]
pub struct Disagreement {
    pub mismatch: Mismatch,
    pub queries: BTreeSet<QKey>,
}

/// What a [`Disagreement`] stands for.
pub struct DisagreementView {
    pub shown: Shown,
    pub queries: Set<QKey>,
}

impl View for Disagreement {
    type V = DisagreementView;

    open spec fn view(&self) -> DisagreementView {
        DisagreementView { shown: shown(self.mismatch), queries: self.queries@ }
    }
}

/// The disagreements of the target: each mismatch that it showed, once,
/// with the queries on which it showed it.
#[derive(Debug)]
pub struct Disagreements {
    entries: Vec<Disagreement>,
}

/// What each disagreement of a list stands for.
pub open spec fn models(entries: Seq<Disagreement>) -> Seq<DisagreementView> {
    entries.map_values(|e: Disagreement| e@)
}

/// No mismatch stands twice in the list.
pub open spec fn distinct(model: Seq<DisagreementView>) -> bool {
    forall|i: int, j: int|
        0 <= i < j < model.len() ==> (#[trigger] model[i]).shown.view != (#[trigger] model[j]).shown.view
}

/// Every mismatch of the list has a query at least.
pub open spec fn each_has_query(model: Seq<DisagreementView>) -> bool {
    forall|i: int| 0 <= i < model.len() ==> (#[trigger] model[i]).queries != Set::<QKey>::empty()
}

/// The mismatches of a list, each with each of its queries.
pub open spec fn pairs(model: Seq<DisagreementView>) -> Set<(MismatchView, QKey)> {
    Set::new(
        |p: (MismatchView, QKey)|
            exists|i: int|
                0 <= i < model.len() && (#[trigger] model[i]).shown.view == p.0
                    && model[i].queries.contains(p.1),
    )
}

/// Whether a mismatch stands in the list.
pub open spec fn known(model: Seq<DisagreementView>, m: MismatchView) -> bool {
    exists|i: int| 0 <= i < model.len() && (#[trigger] model[i]).shown.view == m
}

/// The place at which a mismatch stands in the list.
pub open spec fn place(model: Seq<DisagreementView>, m: MismatchView) -> int {
    choose|i: int| 0 <= i < model.len() && (#[trigger] model[i]).shown.view == m
}

/// The list after the target showed a mismatch on a query: the query
/// joins those of the mismatch where it stands already, else the mismatch
/// goes to the end with this one query.
pub open spec fn recorded(model: Seq<DisagreementView>, new: Shown, key: QKey) -> Seq<
    DisagreementView,
> {
    if known(model, new.view) {
        let at = place(model, new.view);
        model.update(
            at,
            DisagreementView { shown: model[at].shown, queries: model[at].queries.insert(key) },
        )
    } else {
        model.push(DisagreementView { shown: new, queries: set![key] })
    }
}

/// The list after the target showed the first `n` of `items` on a query.
pub open spec fn recorded_items(
    model: Seq<DisagreementView>,
    items: Seq<Mismatch>,
    key: QKey,
    n: nat,
) -> Seq<DisagreementView>
    decreases n,
{
    if n == 0 {
        model
    } else {
        recorded(recorded_items(model, items, key, (n - 1) as nat), shown(items[n - 1]), key)
    }
}

/// The disagreements that the first `n` diffs fold into: every mismatch of
/// a diff recorded with the key of the diff, in the order of the diffs, the
/// diffs whose key is among `others` left out.
pub open spec fn aggregated(diffs: Seq<(QKey, MismatchSet)>, others: Set<QKey>, n: nat) -> Seq<
    DisagreementView,
>
    decreases n,
{
    if n == 0 {
        Seq::empty()
    } else {
        let before = aggregated(diffs, others, (n - 1) as nat);
        let diff = diffs[n - 1];
        if others.contains(diff.0) {
            before
        } else {
            recorded_items(before, diff.1.elements(), diff.0, diff.1.elements().len())
        }
    }
}

/// Whether each presentation in `after` was already in `before`, or is `new`.
pub open spec fn shown_from(after: Seq<DisagreementView>, before: Seq<DisagreementView>, new: Shown)
    -> bool {
    forall|i: int|
        0 <= i < after.len() ==> (#[trigger] after[i]).shown == new || exists|k: int|
            0 <= k < before.len() && (#[trigger] before[k]).shown == after[i].shown
}

impl View for Disagreements {
    type V = Seq<DisagreementView>;

    closed spec fn view(&self) -> Seq<DisagreementView> {
        models(self.entries@)
    }
}

impl Disagreements {
    #[verifier::type_invariant]
    spec fn each_once_with_a_query(&self) -> bool {
        distinct(models(self.entries@)) && each_has_query(models(self.entries@))
    }

    /// No disagreements.
    pub fn new() -> (r: Disagreements)
        ensures
            r@ == Seq::<DisagreementView>::empty(),
    {
        Disagreements { entries: Vec::new() }
    }

    /// The disagreements, in the order in which their mismatches first came up.
    pub fn entries(&self) -> (r: &Vec<Disagreement>)
        ensures
            models(r@) == self@,
            distinct(self@),
            each_has_query(self@),
    {
        proof {
            use_type_invariant(self);
        }
        &self.entries
    }

    /// Notes that the target showed `mismatch` on the query `key`.
    pub fn record(&mut self, mismatch: &Mismatch, key: QKey)
        ensures
            final(self)@ == recorded(old(self)@, shown(*mismatch), key),
            pairs(final(self)@) == pairs(old(self)@).insert((mismatch@, key)),
            distinct(final(self)@),
            each_has_query(final(self)@),
            shown_from(final(self)@, old(self)@, shown(*mismatch)),
    {
        proof {
            use_type_invariant(&*self);
        }
        let ghost before = models(self.entries@);
        let mut taken = Disagreements::new();
        std::mem::swap(self, &mut taken);
        let mut entries = taken.entries;
        let mut i: usize = 0;
        let mut found: bool = false;
        while i < entries.len() && !found
            invariant
                i <= entries.len(),
                models(entries@) == before,
                forall|k: int| 0 <= k < i ==> (#[trigger] before[k]).shown.view != mismatch@,
                found ==> i < entries.len() && before[i as int].shown.view == mismatch@,
            decreases entries.len() - i + if found { 0int } else { 1int },
        {
            if entries[i].mismatch.same(mismatch) {
                found = true;
            } else {
                i += 1;
            }
        }
        if found {
            insert_u32(&mut entries[i].queries, key);
            proof {
                let after = models(entries@);
                assert forall|k: int| 0 <= k < after.len() implies (#[trigger] after[k]).shown
                    == before[k].shown && after[k].queries == if k == i {
                    before[k].queries.insert(key)
                } else {
                    before[k].queries
                } by {}
                lemma_pairs_after_insert(before, after, i as int, key);
                assert forall|k: int| 0 <= k < after.len() implies (#[trigger] after[k]).queries
                    != Set::<QKey>::empty() by {
                    if k == i {
                        assert(after[k].queries.contains(key));
                    } else {
                        assert(before[k].queries != Set::<QKey>::empty());
                    }
                }
            }
        } else {
            let mut queries: BTreeSet<QKey> = BTreeSet::new();
            insert_u32(&mut queries, key);
            let entry = Disagreement { mismatch: mismatch.duplicate(), queries };
            entries.push(entry);
            proof {
                let after = models(entries@);
                assert(after =~= recorded(before, shown(*mismatch), key));
                lemma_pairs_after_push(before, entry@, key);
                assert forall|k: int| 0 <= k < after.len() implies (#[trigger] after[k]).queries
                    != Set::<QKey>::empty() by {
                    if k < before.len() {
                        assert(before[k].queries != Set::<QKey>::empty());
                    } else {
                        assert(after[k].queries.contains(key));
                    }
                }
            }
        }
        *self = Disagreements { entries };
    }
}

/// Whether `p` is a mismatch of `diff` with the key of `diff`, a key that
/// is not among `others`.
pub open spec fn pair_from(diff: (QKey, MismatchSet), others: Set<QKey>, p: (MismatchView, QKey))
    -> bool {
    diff.0 == p.1 && !others.contains(p.1) && diff.1@.contains(p.0)
}

/// Each mismatch of the target with each query on which it showed, the
/// queries among `others` left out.
pub open spec fn counted_pairs(diffs: Seq<(QKey, MismatchSet)>, others: Set<QKey>) -> Set<
    (MismatchView, QKey),
> {
    Set::new(
        |p: (MismatchView, QKey)|
            exists|i: int| 0 <= i < diffs.len() && pair_from(#[trigger] diffs[i], others, p),
    )
}

/// Whether a mismatch of one of the diffs is presented as `s`.
pub open spec fn shown_in(diffs: Seq<(QKey, MismatchSet)>, s: Shown) -> bool {
    exists|i: int, j: int|
        0 <= i < diffs.len() && 0 <= j < diffs[i].1.elements().len() && shown(
            #[trigger] diffs[i].1.elements()[j],
        ) == s
}

/// Whether every entry is presented as some mismatch of the diffs is.
pub open spec fn all_shown_in(model: Seq<DisagreementView>, diffs: Seq<(QKey, MismatchSet)>) -> bool {
    forall|e: int| 0 <= e < model.len() ==> shown_in(diffs, (#[trigger] model[e]).shown)
}

/// `base` and, with `key`, what identifies each of the first `n` of `items`.
pub open spec fn with_items(
    base: Set<(MismatchView, QKey)>,
    items: Seq<Mismatch>,
    key: QKey,
    n: int,
) -> Set<(MismatchView, QKey)> {
    Set::new(
        |p: (MismatchView, QKey)|
            base.contains(p) || (p.1 == key && exists|b: int|
                0 <= b < n && (#[trigger] items[b])@ == p.0),
    )
}

/// Folds the diffs of the second pass into the disagreements of the
/// target: each mismatch with the queries on which the target showed it,
/// the queries on which the other servers disagree left out.
pub fn target_disagreements_from_diffs(
    diffs: &Vec<(QKey, MismatchSet)>,
    others_disagreements: &BTreeSet<QKey>,
) -> (r: Disagreements)
    ensures
        r@ == aggregated(diffs@, others_disagreements@, diffs@.len()),
        pairs(r@) == counted_pairs(diffs@, others_disagreements@),
        distinct(r@),
        each_has_query(r@),
        all_shown_in(r@, diffs@),
{
    let ghost others = others_disagreements@;
    let mut target_disagreements = Disagreements::new();
    let mut i: usize = 0;
    while i < diffs.len()
        invariant
            i <= diffs.len(),
            others == others_disagreements@,
            target_disagreements@ == aggregated(diffs@, others, i as nat),
            pairs(target_disagreements@) == counted_pairs(diffs@.take(i as int), others),
            distinct(target_disagreements@),
            each_has_query(target_disagreements@),
            all_shown_in(target_disagreements@, diffs@),
        decreases diffs.len() - i,
    {
        let key = diffs[i].0;
        let ghost base = pairs(target_disagreements@);
        let ghost done = diffs@.take(i as int);
        let ghost next = diffs@.take(i + 1);
        assert(next == done.push(diffs@[i as int]));
        if contains_u32(others_disagreements, key) {
            proof {
                assert forall|p: (MismatchView, QKey)|
                    counted_pairs(next, others).contains(p) <==> counted_pairs(done, others).contains(
                        p,
                    ) by {}
            }
        } else {
            let qmismatches = diffs[i].1.items();
            let ghost items = qmismatches@;
            let ghost start = target_disagreements@;
            let mut j: usize = 0;
            while j < qmismatches.len()
                invariant
                    j <= qmismatches.len(),
                    i < diffs.len(),
                    items == qmismatches@,
                    items == diffs@[i as int].1.elements(),
                    target_disagreements@ == recorded_items(start, items, key, j as nat),
                    pairs(target_disagreements@) == with_items(base, items, key, j as int),
                    distinct(target_disagreements@),
                    each_has_query(target_disagreements@),
                    all_shown_in(target_disagreements@, diffs@),
                decreases qmismatches.len() - j,
            {
                target_disagreements.record(&qmismatches[j], key);
                j += 1;
            }
            proof {
                assert forall|p: (MismatchView, QKey)|
                    counted_pairs(next, others).contains(p) <==> with_items(
                        base,
                        items,
                        key,
                        j as int,
                    ).contains(p) by {
                    lemma_counted_step(done, diffs@[i as int], others, p);
                    if exists|b: int| 0 <= b < j && (#[trigger] items[b])@ == p.0 {
                        let b = choose|b: int| 0 <= b < j && (#[trigger] items[b])@ == p.0;
                        assert(views(items)[b] == p.0);
                    }
                }
            }
        }
        i += 1;
    }
    assert(diffs@.take(i as int) == diffs@);
    target_disagreements
}

/// A pair is counted among the diffs with one more at the end exactly if
/// it was counted before or comes from the one at the end.
proof fn lemma_counted_step(
    done: Seq<(QKey, MismatchSet)>,
    last: (QKey, MismatchSet),
    others: Set<QKey>,
    p: (MismatchView, QKey),
)
    ensures
        counted_pairs(done.push(last), others).contains(p) <==> counted_pairs(done, others).contains(
            p,
        ) || pair_from(last, others, p),
{
    let next = done.push(last);
    if counted_pairs(done, others).contains(p) {
        let i = choose|i: int| 0 <= i < done.len() && pair_from(#[trigger] done[i], others, p);
        assert(next[i] == done[i]);
    }
    if pair_from(last, others, p) {
        assert(next[done.len() as int] == last);
    }
}

/// Adding a query to the entry at `at` adds its mismatch with that query
/// to the pairs, and nothing else.
proof fn lemma_pairs_after_insert(
    before: Seq<DisagreementView>,
    after: Seq<DisagreementView>,
    at: int,
    key: QKey,
)
    requires
        0 <= at < before.len(),
        after.len() == before.len(),
        forall|k: int|
            0 <= k < after.len() ==> (#[trigger] after[k]).shown == before[k].shown
                && after[k].queries == if k == at {
                before[k].queries.insert(key)
            } else {
                before[k].queries
            },
    ensures
        pairs(after) == pairs(before).insert((before[at].shown.view, key)),
{
    let added = (before[at].shown.view, key);
    assert forall|p: (MismatchView, QKey)| pairs(after).contains(p) <==> pairs(before).insert(
        added,
    ).contains(p) by {
        if pairs(before).contains(p) {
            let i = choose|i: int|
                0 <= i < before.len() && (#[trigger] before[i]).shown.view == p.0
                    && before[i].queries.contains(p.1);
            assert(after[i].shown.view == p.0 && after[i].queries.contains(p.1));
        }
        if p == added {
            assert(after[at].shown.view == p.0 && after[at].queries.contains(p.1));
        }
    }
}

/// A new entry with one query adds its mismatch with that query to the
/// pairs, and nothing else.
proof fn lemma_pairs_after_push(before: Seq<DisagreementView>, entry: DisagreementView, key: QKey)
    requires
        entry.queries == set![key],
    ensures
        pairs(before.push(entry)) == pairs(before).insert((entry.shown.view, key)),
{
    let after = before.push(entry);
    let added = (entry.shown.view, key);
    assert forall|p: (MismatchView, QKey)| pairs(after).contains(p) <==> pairs(before).insert(
        added,
    ).contains(p) by {
        if pairs(before).contains(p) {
            let i = choose|i: int|
                0 <= i < before.len() && (#[trigger] before[i]).shown.view == p.0
                    && before[i].queries.contains(p.1);
            assert(after[i].shown.view == p.0 && after[i].queries.contains(p.1));
        }
        if p == added {
            assert(after[before.len() as int].shown.view == p.0);
        }
    }
}

} // verus!
