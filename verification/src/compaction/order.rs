//! The order in which the properties of a node are walked.

use vstd::prelude::*;
use crate::text::{lex_lt, str_lt};

verus! {

/// `order` with the place `k` put in before the first place whose key is
/// above the key of `k`.
pub open spec fn inserted(keys: Seq<Seq<char>>, order: Seq<int>, k: int) -> Seq<int>
    decreases order.len(),
{
    if order.len() == 0 {
        seq![k]
    } else if lex_lt(keys[k], keys[order[0]]) {
        seq![k] + order
    } else {
        seq![order[0]] + inserted(keys, order.drop_first(), k)
    }
}

/// The first `n` places in ascending order of their keys; places with the
/// same key stay in their order.
pub open spec fn sorted_order(keys: Seq<Seq<char>>, n: int) -> Seq<int>
    decreases n,
{
    if n <= 0 {
        Seq::empty()
    } else {
        inserted(keys, sorted_order(keys, n - 1), n - 1)
    }
}

/// The places `0` to `n - 1` as they stand.
pub open spec fn stored_order(n: int) -> Seq<int> {
    Seq::new(
        if n > 0 {
            n as nat
        } else {
            0
        },
        |i: int| i,
    )
}

/// The order in which entries are walked: ascending by key where an order
/// is asked for, as they stand otherwise.
pub open spec fn walk_order(keys: Seq<Seq<char>>, ordered: bool) -> Seq<int> {
    if ordered {
        sorted_order(keys, keys.len() as int)
    } else {
        stored_order(keys.len() as int)
    }
}

/// Whether the keys ascend along `order`.
pub open spec fn ascending(keys: Seq<Seq<char>>, order: Seq<int>) -> bool {
    forall|i: int, j: int|
        0 <= i < j < order.len() ==> !lex_lt(keys[#[trigger] order[j]], keys[#[trigger] order[i]])
}

/// Whether `order` holds places below `n` only.
pub open spec fn in_range(order: Seq<int>, n: int) -> bool {
    forall|i: int| 0 <= i < order.len() ==> 0 <= #[trigger] order[i] < n
}

/// Putting a place in at the point `p` is what `inserted` does, where `p`
/// is the first point whose key is above the new key.
pub proof fn lemma_inserted_at(keys: Seq<Seq<char>>, order: Seq<int>, k: int, p: int)
    requires
        0 <= p <= order.len(),
        forall|j: int| 0 <= j < p ==> !lex_lt(keys[k], keys[#[trigger] order[j]]),
        p < order.len() ==> lex_lt(keys[k], keys[order[p]]),
    ensures
        inserted(keys, order, k) == order.insert(p, k),
    decreases order.len(),
{
    if order.len() == 0 {
        assert(seq![k] =~= order.insert(p, k));
    } else if p == 0 {
        assert(seq![k] + order =~= order.insert(0, k));
    } else {
        assert(!lex_lt(keys[k], keys[order[0]]));
        let rest = order.drop_first();
        assert forall|j: int| 0 <= j < p - 1 implies !lex_lt(keys[k], keys[#[trigger] rest[j]]) by {
            assert(rest[j] == order[j + 1]);
        }
        if p - 1 < rest.len() {
            assert(rest[p - 1] == order[p]);
        }
        lemma_inserted_at(keys, rest, k, p - 1);
        assert(seq![order[0]] + rest.insert(p - 1, k) =~= order.insert(p, k));
    }
}

/// `inserted` keeps the keys ascending, and adds the one place.
pub proof fn lemma_inserted_ascending(keys: Seq<Seq<char>>, order: Seq<int>, k: int, n: int)
    requires
        ascending(keys, order),
        in_range(order, n),
        0 <= k < n,
        n <= keys.len(),
    ensures
        ascending(keys, inserted(keys, order, k)),
        in_range(inserted(keys, order, k), n),
        inserted(keys, order, k).len() == order.len() + 1,
        forall|x: int|
            #![trigger inserted(keys, order, k).contains(x)]
            #![trigger order.contains(x)]
            inserted(keys, order, k).contains(x) <==> (x == k || order.contains(x)),
    decreases order.len(),
{
    let out = inserted(keys, order, k);
    if order.len() == 0 {
        assert(out =~= seq![k]);
        assert forall|x: int|
            #![trigger out.contains(x)]
            #![trigger order.contains(x)]
            out.contains(x) <==> (x == k || order.contains(x)) by {
            if out.contains(x) {
                let i = choose|i: int| 0 <= i < out.len() && out[i] == x;
            }
            if x == k {
                assert(out[0] == k);
            }
        }
    } else if lex_lt(keys[k], keys[order[0]]) {
        assert(out =~= seq![k] + order);
        assert forall|i: int, j: int| 0 <= i < j < out.len() implies !lex_lt(
            keys[#[trigger] out[j]],
            keys[#[trigger] out[i]],
        ) by {
            if i == 0 {
                assert(out[j] == order[j - 1]);
                if lex_lt(keys[out[j]], keys[k]) {
                    crate::text::lemma_lex_lt_transitive(keys[out[j]], keys[k], keys[order[0]]);
                    if j - 1 > 0 {
                        assert(!lex_lt(keys[order[j - 1]], keys[order[0]]));
                    } else {
                        crate::text::lemma_lex_lt_irreflexive(keys[order[0]]);
                    }
                }
            } else {
                assert(out[i] == order[i - 1]);
                assert(out[j] == order[j - 1]);
            }
        }
        assert forall|x: int|
            #![trigger out.contains(x)]
            #![trigger order.contains(x)]
            out.contains(x) <==> (x == k || order.contains(x)) by {
            if out.contains(x) {
                let i = choose|i: int| 0 <= i < out.len() && out[i] == x;
                if i > 0 {
                    assert(order[i - 1] == x);
                }
            }
            if x == k {
                assert(out[0] == k);
            }
            if order.contains(x) {
                let i = choose|i: int| 0 <= i < order.len() && order[i] == x;
                assert(out[i + 1] == x);
            }
        }
    } else {
        let rest = order.drop_first();
        assert forall|i: int, j: int| 0 <= i < j < rest.len() implies !lex_lt(
            keys[#[trigger] rest[j]],
            keys[#[trigger] rest[i]],
        ) by {
            assert(rest[i] == order[i + 1]);
            assert(rest[j] == order[j + 1]);
        }
        assert forall|i: int| 0 <= i < rest.len() implies 0 <= #[trigger] rest[i] < n by {
            assert(rest[i] == order[i + 1]);
        }
        lemma_inserted_ascending(keys, rest, k, n);
        let tail = inserted(keys, rest, k);
        assert(out =~= seq![order[0]] + tail);
        assert forall|i: int, j: int| 0 <= i < j < out.len() implies !lex_lt(
            keys[#[trigger] out[j]],
            keys[#[trigger] out[i]],
        ) by {
            if i == 0 {
                assert(out[j] == tail[j - 1]);
                assert(tail.contains(tail[j - 1]));
                if tail[j - 1] == k {
                } else {
                    assert(rest.contains(tail[j - 1]));
                    let m = choose|m: int| 0 <= m < rest.len() && rest[m] == tail[j - 1];
                    assert(order[m + 1] == tail[j - 1]);
                    assert(!lex_lt(keys[order[m + 1]], keys[order[0]]));
                }
            } else {
                assert(out[i] == tail[i - 1]);
                assert(out[j] == tail[j - 1]);
            }
        }
        assert forall|i: int| 0 <= i < out.len() implies 0 <= #[trigger] out[i] < n by {
            if i > 0 {
                assert(out[i] == tail[i - 1]);
            }
        }
        assert forall|x: int|
            #![trigger out.contains(x)]
            #![trigger order.contains(x)]
            out.contains(x) <==> (x == k || order.contains(x)) by {
            if out.contains(x) {
                let i = choose|i: int| 0 <= i < out.len() && out[i] == x;
                if i > 0 {
                    assert(tail[i - 1] == x);
                    assert(tail.contains(x));
                    if x != k {
                        let m = choose|m: int| 0 <= m < rest.len() && rest[m] == x;
                        assert(order[m + 1] == x);
                    }
                } else {
                    assert(order[0] == x);
                }
            }
            if x == k {
                assert(tail.contains(k));
                let m = choose|m: int| 0 <= m < tail.len() && tail[m] == k;
                assert(out[m + 1] == k);
            }
            if order.contains(x) {
                let i = choose|i: int| 0 <= i < order.len() && order[i] == x;
                if i == 0 {
                    assert(out[0] == x);
                } else {
                    assert(rest[i - 1] == x);
                    assert(tail.contains(x));
                    let m = choose|m: int| 0 <= m < tail.len() && tail[m] == x;
                    assert(out[m + 1] == x);
                }
            }
        }
    }
}

/// The sorted order holds each of the first `n` places once, and the keys
/// ascend along it.
pub proof fn lemma_sorted_order(keys: Seq<Seq<char>>, n: int)
    requires
        0 <= n <= keys.len(),
    ensures
        sorted_order(keys, n).len() == n,
        in_range(sorted_order(keys, n), n),
        ascending(keys, sorted_order(keys, n)),
        forall|x: int| 0 <= x < n ==> #[trigger] sorted_order(keys, n).contains(x),
    decreases n,
{
    if n > 0 {
        lemma_sorted_order(keys, n - 1);
        let before = sorted_order(keys, n - 1);
        assert forall|i: int| 0 <= i < before.len() implies 0 <= #[trigger] before[i] < n by {}
        lemma_inserted_ascending(keys, before, n - 1, n);
        let out = sorted_order(keys, n);
        assert forall|x: int| 0 <= x < n implies #[trigger] out.contains(x) by {
            if x < n - 1 {
                assert(before.contains(x));
            }
        }
    }
}

/// The keys of the entries.
pub open spec fn keys_of<V>(entries: Seq<(String, V)>) -> Seq<Seq<char>> {
    Seq::new(entries.len(), |i: int| entries[i].0@)
}

/// The order in which the entries are walked, as places in `entries`.
pub fn walk<V>(entries: &Vec<(String, V)>, ordered: bool) -> (r: Vec<usize>)
    ensures
        r@.len() == entries@.len(),
        r@.len() == walk_order(keys_of(entries@), ordered).len(),
        forall|i: int|
            0 <= i < r@.len() ==> (#[trigger] r@[i]) as int == walk_order(
                keys_of(entries@),
                ordered,
            )[i],
        forall|i: int| 0 <= i < r@.len() ==> (#[trigger] r@[i]) < entries@.len(),
{
    let ghost keys = keys_of(entries@);
    let mut order: Vec<usize> = Vec::new();
    let mut n: usize = 0;
    proof {
        lemma_sorted_order(keys, keys.len() as int);
    }
    while n < entries.len()
        invariant
            n <= entries.len(),
            keys == keys_of(entries@),
            order@.len() == n,
            forall|i: int| 0 <= i < n ==> (#[trigger] order@[i]) < n,
            ordered ==> order@.map_values(|x: usize| x as int) == sorted_order(keys, n as int),
            !ordered ==> forall|i: int| 0 <= i < n ==> order@[i] == i,
        decreases entries.len() - n,
    {
        if ordered {
            let ghost before = order@.map_values(|x: usize| x as int);
            let mut p: usize = 0;
            while p < order.len() && !str_lt(entries[n].0.as_str(), entries[order[p]].0.as_str())
                invariant
                    p <= order.len(),
                    n < entries.len(),
                    keys == keys_of(entries@),
                    order@.len() == n,
                    before == order@.map_values(|x: usize| x as int),
                    forall|i: int| 0 <= i < n ==> (#[trigger] order@[i]) < n,
                    forall|j: int| 0 <= j < p ==> !lex_lt(keys[n as int], keys[#[trigger] before[j]]),
                decreases order.len() - p,
            {
                p += 1;
            }
            proof {
                lemma_inserted_at(keys, before, n as int, p as int);
            }
            order.insert(p, n);
            assert(order@.map_values(|x: usize| x as int) =~= before.insert(p as int, n as int));
            assert forall|i: int| 0 <= i < n + 1 implies (#[trigger] order@[i]) < n + 1 by {
                if i < p {
                    assert(order@[i] as int == before[i]);
                } else if i > p {
                    assert(order@[i] as int == before[i - 1]);
                }
            }
        } else {
            order.push(n);
        }
        n += 1;
    }
    proof {
        if ordered {
            assert forall|i: int| 0 <= i < order@.len() implies order@[i] as int == walk_order(
                keys,
                ordered,
            )[i] by {
                assert(order@.map_values(|x: usize| x as int)[i] == order@[i] as int);
            }
        } else {
            assert(walk_order(keys, ordered) =~= stored_order(keys.len() as int));
        }
    }
    order
}


/// Where an order is asked for, every entry is walked once, and the keys
/// ascend along the walk.
pub proof fn lemma_ordered_walk(keys: Seq<Seq<char>>)
    ensures
        walk_order(keys, true).len() == keys.len(),
        in_range(walk_order(keys, true), keys.len() as int),
        ascending(keys, walk_order(keys, true)),
        forall|x: int| 0 <= x < keys.len() ==> #[trigger] walk_order(keys, true).contains(x),
{
    lemma_sorted_order(keys, keys.len() as int);
}

} // verus!
