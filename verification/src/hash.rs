//! Order-independent hashing of sets of values.
use vstd::prelude::*;
use std::hash::BuildHasher;

verus! {

broadcast use vstd::seq_lib::group_to_multiset_ensures, vstd::multiset::group_multiset_axioms;

/// Hashes `bytes` with foldhash's `FixedState::default().hash_one`.
///
/// Nothing is claimed of the result: foldhash documents that its output is
/// not the same across platforms, so it is no function of the bytes alone.
#[verifier::external_body]
fn hash_one_fixed(bytes: &[u8]) -> (h: u64) {
    foldhash::fast::FixedState::default().hash_one(bytes)
}

/// Sum of `hashes`, as a mathematical integer.
pub open spec fn hash_total(hashes: Seq<u64>) -> int
    decreases hashes.len(),
{
    if hashes.len() == 0 {
        0
    } else {
        hash_total(hashes.drop_last()) + hashes.last() as int
    }
}

/// The set hash of the item hashes `hashes`: their sum with wrap-around.
pub open spec fn set_hash(hashes: Seq<u64>) -> u64 {
    (hash_total(hashes) % 0x1_0000_0000_0000_0000) as u64
}

/// Combines item hashes with wrapping addition, which is associative and
/// commutative, so that the order of the items does not matter.
pub fn combine_hashes(hashes: &[u64]) -> (h: u64)
    ensures
        h == set_hash(hashes@),
{
    let mut hash: u64 = 0;
    let mut i: usize = 0;
    while i < hashes.len()
        invariant
            i <= hashes@.len(),
            hash == (hash_total(hashes@.subrange(0, i as int)) % 0x1_0000_0000_0000_0000) as u64,
        decreases hashes@.len() - i,
    {
        proof {
            assert(hashes@.subrange(0, i + 1).drop_last() =~= hashes@.subrange(0, i as int));
            assert(hashes@.subrange(0, i + 1).last() == hashes@[i as int]);
        }
        hash = hash.wrapping_add(hashes[i]);
        i = i + 1;
    }
    proof {
        assert(hashes@.subrange(0, hashes@.len() as int) =~= hashes@);
    }
    hash
}

/// Hashes a set of items independently of their iteration order.
///
/// Each item is hashed on its own with foldhash's fixed-seed hasher, and the
/// item hashes are combined by [`combine_hashes`]: the result is the set
/// hash of one hash per item.
pub fn hash_set(items: &[Vec<u8>]) -> (h: u64)
    ensures
        exists|hs: Seq<u64>| hs.len() == items@.len() && h == set_hash(hs),
{
    let mut hashes: Vec<u64> = Vec::new();
    let mut i: usize = 0;
    while i < items.len()
        invariant
            i <= items@.len(),
            hashes@.len() == i,
        decreases items@.len() - i,
    {
        hashes.push(hash_one_fixed(items[i].as_slice()));
        i = i + 1;
    }
    let h = combine_hashes(hashes.as_slice());
    proof {
        assert(hashes@.len() == items@.len() && h == set_hash(hashes@));
    }
    h
}

/// Hashes an optional set of items; an absent set contributes nothing, so
/// `None` comes back.
pub fn hash_set_opt(items: Option<&[Vec<u8>]>) -> (h: Option<u64>)
    ensures
        match items {
            Some(v) => h matches Some(x) && exists|hs: Seq<u64>| hs.len() == v@.len() && x == set_hash(hs),
            None => h is None,
        },
{
    match items {
        Some(v) => Some(hash_set(v)),
        None => None,
    }
}

proof fn lemma_total_remove(s: Seq<u64>, i: int)
    requires
        0 <= i < s.len(),
    ensures
        hash_total(s) == hash_total(s.remove(i)) + s[i] as int,
    decreases s.len(),
{
    if i < s.len() - 1 {
        lemma_total_remove(s.drop_last(), i);
        assert(s.remove(i).drop_last() =~= s.drop_last().remove(i));
        assert(s.remove(i).last() == s.last());
    } else {
        assert(s.remove(i) =~= s.drop_last());
    }
}

/// The set hash does not depend on the order of the item hashes: two
/// lists holding the same hashes, each the same number of times, combine
/// alike.
pub proof fn lemma_set_hash_order_independent(a: Seq<u64>, b: Seq<u64>)
    requires
        a.to_multiset() == b.to_multiset(),
    ensures
        set_hash(a) == set_hash(b),
{
    lemma_total_permutation(a, b);
}

proof fn lemma_total_permutation(a: Seq<u64>, b: Seq<u64>)
    requires
        a.to_multiset() == b.to_multiset(),
    ensures
        hash_total(a) == hash_total(b),
    decreases a.len(),
{
    assert(a.len() == a.to_multiset().len());
    assert(b.len() == b.to_multiset().len());
    if a.len() > 0 {
        let x = a.last();
        assert(a.to_multiset().count(x) > 0) by {
            assert(a.contains(x)) by { assert(a[a.len() - 1] == x); }
        }
        assert(b.contains(x));
        let j = choose|j: int| 0 <= j < b.len() && b[j] == x;
        lemma_total_remove(b, j);
        assert(a.drop_last() =~= a.remove(a.len() - 1));
        assert(a.drop_last().to_multiset() =~= a.to_multiset().remove(x));
        assert(b.remove(j).to_multiset() =~= b.to_multiset().remove(x));
        lemma_total_permutation(a.drop_last(), b.remove(j));
    } else {
        assert(b.len() == 0);
    }
}

} // verus!
