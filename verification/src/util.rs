//! Utility functions.

use core::hash::{Hash, Hasher};
use std::collections::hash_map::DefaultHasher;
use vstd::prelude::*;
use crate::json;

verus! {

/// The sum of the digests.
pub open spec fn total(digests: Seq<u64>) -> int
    decreases digests.len(),
{
    if digests.len() == 0 {
        0
    } else {
        total(digests.drop_last()) + digests.last()
    }
}

/// The digests combined: their sum, wrapped around at 2^64. The sum is
/// associative and commutative, so the order of the digests does not matter.
pub open spec fn combined(digests: Seq<u64>) -> u64 {
    (total(digests) % 0x1_0000_0000_0000_0000) as u64
}

/// Combines digests into one, whatever their order: their sum, wrapped
/// around at 2^64.
pub fn combine(digests: &Vec<u64>) -> (r: u64)
    ensures
        r == combined(digests@),
{
    let mut hash: u64 = 0;
    let mut i: usize = 0;
    while i < digests.len()
        invariant
            i <= digests.len(),
            hash == combined(digests@.take(i as int)),
        decreases digests.len() - i,
    {
        let ghost before = digests@.take(i as int);
        let ghost after = digests@.take(i + 1);
        proof {
            assert(after.drop_last() =~= before);
            assert(after.last() == digests@[i as int]);
            vstd::arithmetic::div_mod::lemma_add_mod_noop(
                total(before),
                digests@[i as int] as int,
                0x1_0000_0000_0000_0000,
            );
            vstd::arithmetic::div_mod::lemma_small_mod(
                digests@[i as int] as nat,
                0x1_0000_0000_0000_0000,
            );
        }
        hash = hash.wrapping_add(digests[i]);
        i += 1;
    }
    assert(digests@.take(digests@.len() as int) =~= digests@);
    hash
}

/// The sum of the digests is the digest at `i` and the sum of the others.
pub proof fn lemma_total_remove(digests: Seq<u64>, i: int)
    requires
        0 <= i < digests.len(),
    ensures
        total(digests) == total(digests.remove(i)) + digests[i],
    decreases digests.len(),
{
    if i == digests.len() - 1 {
        assert(digests.remove(i) =~= digests.drop_last());
    } else {
        let front = digests.drop_last();
        lemma_total_remove(front, i);
        assert(digests.remove(i).drop_last() =~= front.remove(i));
        assert(digests.remove(i).last() == digests.last());
    }
}

/// The sum does not depend on the order of the digests.
pub proof fn lemma_total_order(a: Seq<u64>, b: Seq<u64>)
    requires
        a.to_multiset() == b.to_multiset(),
    ensures
        total(a) == total(b),
    decreases a.len(),
{
    a.to_multiset_ensures();
    b.to_multiset_ensures();
    if a.len() > 0 {
        let x = a.last();
        let front = a.drop_last();
        front.to_multiset_ensures();
        assert(a =~= front.push(x));
        assert(a.to_multiset() =~= front.to_multiset().insert(x));
        assert(b.to_multiset().count(x) > 0);
        assert(b.contains(x));
        let j = choose|j: int| 0 <= j < b.len() && b[j] == x;
        assert(b.remove(j).to_multiset() =~= b.to_multiset().remove(x));
        assert(front.to_multiset() =~= a.to_multiset().remove(x));
        lemma_total_order(front, b.remove(j));
        lemma_total_remove(b, j);
    }
}

/// Combining gives the same for the same digests in any order.
pub proof fn lemma_combined_order(a: Seq<u64>, b: Seq<u64>)
    requires
        a.to_multiset() == b.to_multiset(),
    ensures
        combined(a) == combined(b),
{
    lemma_total_order(a, b);
}

/// `Hash::hash` of the item into the state. What it writes is for the
/// type of the item to decide.
#[verifier::external_body]
pub(crate) fn feed<T: Hash, H: Hasher>(item: &T, state: &mut H) {
    item.hash(state)
}

/// `Hasher::write_u64` on the hasher. What becomes of the hasher is for
/// its type to decide.
#[verifier::external_body]
fn write<H: Hasher>(hasher: &mut H, value: u64) {
    hasher.write_u64(value)
}

/// The digest of an item: what a fresh `DefaultHasher` gives after the
/// item was fed to it.
pub fn digest<T: Hash>(item: &T) -> u64 {
    let mut h = DefaultHasher::new();
    feed(item, &mut h);
    h.finish()
}

/// Feeds the hasher with a digest of the set that does not depend on the
/// order of its items: the digests of the items, combined.
pub fn hash_set<T: Hash, H: Hasher>(set: &Vec<T>, hasher: &mut H) {
    let mut digests: Vec<u64> = Vec::new();
    let mut i: usize = 0;
    while i < set.len()
        invariant
            i <= set.len(),
        decreases set.len() - i,
    {
        digests.push(digest(&set[i]));
        i += 1;
    }
    write(hasher, combine(&digests));
}

/// Feeds the hasher with the digest of the set, if there is one.
pub fn hash_set_opt<T: Hash, H: Hasher>(set_opt: &Option<Vec<T>>, hasher: &mut H)
    ensures
        set_opt is None ==> *final(hasher) == *old(hasher),
{
    match set_opt {
        Some(set) => hash_set(set, hasher),
        None => (),
    }
}

/// Feeds the hasher with a digest of the entries that does not depend on
/// their order: the digests of the entries, key before value, combined.
pub fn hash_map<K: Hash, V: Hash, H: Hasher>(map: &Vec<(K, V)>, hasher: &mut H) {
    let mut digests: Vec<u64> = Vec::new();
    let mut i: usize = 0;
    while i < map.len()
        invariant
            i <= map.len(),
        decreases map.len() - i,
    {
        let mut h = DefaultHasher::new();
        feed(&map[i].0, &mut h);
        feed(&map[i].1, &mut h);
        digests.push(h.finish());
        i += 1;
    }
    write(hasher, combine(&digests));
}

/// `core::slice::from_ref`: the slice of length one that holds the item.
#[verifier::external_body]
fn one<T>(item: &T) -> (r: &[T])
    ensures
        r@ == seq![*item],
{
    core::slice::from_ref(item)
}

/// The items of a JSON array; any other value as the one item of a slice.
pub fn as_array(json: &json::Value) -> (r: &[json::Value])
    ensures
        r@ == match json {
            json::Value::Array(items) => items@,
            _ => seq![*json],
        },
{
    match json {
        json::Value::Array(items) => items.as_slice(),
        _ => one(json),
    }
}

} // verus!
