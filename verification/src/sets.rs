//! Ordered sets of integers: the few operations on `BTreeSet` that the
//! crate uses, each with what it does to the set's contents.

use vstd::prelude::*;
use std::collections::BTreeSet;
use vstd::std_specs::cmp::OrdSpec;
use vstd::std_specs::iter::IteratorSpec;

verus! {

/// Each element is smaller than the one after it.
pub open spec fn ascending_u32(s: Seq<u32>) -> bool {
    forall|i: int, j: int| 0 <= i < j < s.len() ==> s[i] < s[j]
}

/// Each element is smaller than the one after it.
pub open spec fn ascending_u16(s: Seq<u16>) -> bool {
    forall|i: int, j: int| 0 <= i < j < s.len() ==> s[i] < s[j]
}

/// The members of a finite set from the smallest to the largest.
pub open spec fn ascending_of(set: Set<u16>) -> Seq<u16> {
    choose|s: Seq<u16>| ascending_u16(s) && s.to_set() == set
}

/// The members of a finite set of keys from the smallest to the largest.
pub open spec fn ascending_keys(set: Set<u32>) -> Seq<u32> {
    choose|s: Seq<u32>| ascending_u32(s) && s.to_set() == set
}

/// Each element ranks below the one after it.
pub open spec fn ascending_by<T>(s: Seq<T>, rank: spec_fn(T) -> int) -> bool {
    forall|i: int, j: int| 0 <= i < j < s.len() ==> rank(s[i]) < rank(s[j])
}

/// Two ascending sequences with the same members are the same sequence.
pub proof fn lemma_ascending_unique<T>(a: Seq<T>, b: Seq<T>, rank: spec_fn(T) -> int)
    requires
        ascending_by(a, rank),
        ascending_by(b, rank),
        a.to_set() == b.to_set(),
    ensures
        a == b,
    decreases a.len(),
{
    if a.len() == 0 {
        if b.len() > 0 {
            assert(a.to_set().contains(b[0]));
        }
    } else {
        let x = a.last();
        let y = b.last();
        assert(b.to_set().contains(x));
        assert(a.to_set().contains(y));
        let a1 = a.drop_last();
        let b1 = b.drop_last();
        assert forall|v: T| a1.to_set().contains(v) == b1.to_set().contains(v) by {
            if a1.to_set().contains(v) {
                assert(b.to_set().contains(v));
                let j = choose|j: int| 0 <= j < b.len() && b[j] == v;
                assert(b1[j] == v);
            }
            if b1.to_set().contains(v) {
                assert(a.to_set().contains(v));
                let i = choose|i: int| 0 <= i < a.len() && a[i] == v;
                assert(a1[i] == v);
            }
        }
        assert(a1.to_set() =~= b1.to_set());
        lemma_ascending_unique(a1, b1, rank);
        assert(b =~= b1.push(y));
    }
}

/// An ascending sequence is the ascending sequence of its members.
pub proof fn lemma_ascending_of(s: Seq<u16>)
    requires
        ascending_u16(s),
    ensures
        ascending_of(s.to_set()) == s,
{
    let q = ascending_of(s.to_set());
    lemma_ascending_unique(q, s, |x: u16| x as int);
}

/// An ascending sequence of keys is the ascending sequence of its members.
pub proof fn lemma_ascending_keys(s: Seq<u32>)
    requires
        ascending_u32(s),
    ensures
        ascending_keys(s.to_set()) == s,
{
    let q = ascending_keys(s.to_set());
    lemma_ascending_unique(q, s, |x: u32| x as int);
}

/// Whether two sets have the same members.
pub fn equal_u16(a: &BTreeSet<u16>, b: &BTreeSet<u16>) -> (r: bool)
    ensures
        r == (a@ == b@),
{
    let left = sorted_u16(a);
    let right = sorted_u16(b);
    if left.len() != right.len() {
        proof {
            if a@ == b@ {
                lemma_ascending_unique(left@, right@, |x: u16| x as int);
            }
        }
        return false;
    }
    let mut i: usize = 0;
    while i < left.len()
        invariant
            i <= left.len(),
            left.len() == right.len(),
            left@.to_set() == a@,
            right@.to_set() == b@,
            ascending_u16(left@),
            ascending_u16(right@),
            forall|k: int| 0 <= k < i ==> left@[k] == right@[k],
        decreases left.len() - i,
    {
        if left[i] != right[i] {
            proof {
                if a@ == b@ {
                    lemma_ascending_unique(left@, right@, |x: u16| x as int);
                }
            }
            return false;
        }
        i += 1;
    }
    assert(left@ =~= right@);
    true
}

/// Adds `key` to `set`.
pub fn insert_u32(set: &mut BTreeSet<u32>, key: u32)
    ensures
        final(set)@ == old(set)@.insert(key),
{
    broadcast use vstd::laws_cmp::group_laws_cmp;

    set.insert(key);
}

/// Whether `set` holds `key`.
pub fn contains_u32(set: &BTreeSet<u32>, key: u32) -> (r: bool)
    ensures
        r == set@.contains(key),
{
    broadcast use vstd::laws_cmp::group_laws_cmp;

    set.contains(&key)
}

/// The elements of `set` from the smallest to the largest.
pub fn sorted_u32(set: &BTreeSet<u32>) -> (r: Vec<u32>)
    ensures
        r@.to_set() == set@,
        ascending_u32(r@),
{
    broadcast use vstd::laws_cmp::group_laws_cmp;

    let mut out: Vec<u32> = Vec::new();
    proof {
        let ghost q = set.iter().remaining();
        vstd::std_specs::btree::axiom_increasing_seq_meaning::<&u32>(q);
        assert forall|i: int, j: int| 0 <= i < j < q.len() implies *q[i] < *q[j] by {
            assert(OrdSpec::cmp_spec(&q[i], &q[j]) is Less);
        }
    }
    for x in it: set.iter()
        invariant
            out@.len() == it.index(),
            forall|j: int| 0 <= j < out@.len() ==> out@[j] == *it.seq()[j],
            it.seq().unref().to_set() == set@,
            forall|i: int, j: int| 0 <= i < j < it.seq().len() ==> *it.seq()[i] < *it.seq()[j],
        ensures
            out@ =~= it.seq().unref(),
    {
        out.push(*x);
    }
    out
}

/// Adds `key` to `set`.
pub fn insert_u16(set: &mut BTreeSet<u16>, key: u16)
    ensures
        final(set)@ == old(set)@.insert(key),
{
    broadcast use vstd::laws_cmp::group_laws_cmp;

    set.insert(key);
}

/// The elements of `set` from the smallest to the largest.
pub fn sorted_u16(set: &BTreeSet<u16>) -> (r: Vec<u16>)
    ensures
        r@.to_set() == set@,
        ascending_u16(r@),
{
    broadcast use vstd::laws_cmp::group_laws_cmp;

    let mut out: Vec<u16> = Vec::new();
    proof {
        let ghost q = set.iter().remaining();
        vstd::std_specs::btree::axiom_increasing_seq_meaning::<&u16>(q);
        assert forall|i: int, j: int| 0 <= i < j < q.len() implies *q[i] < *q[j] by {
            assert(OrdSpec::cmp_spec(&q[i], &q[j]) is Less);
        }
    }
    for x in it: set.iter()
        invariant
            out@.len() == it.index(),
            forall|j: int| 0 <= j < out@.len() ==> out@[j] == *it.seq()[j],
            it.seq().unref().to_set() == set@,
            forall|i: int, j: int| 0 <= i < j < it.seq().len() ==> *it.seq()[i] < *it.seq()[j],
        ensures
            out@ =~= it.seq().unref(),
    {
        out.push(*x);
    }
    out
}

} // verus!
