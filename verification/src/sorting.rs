//! Putting things in order by a key.
use vstd::prelude::*;

use crate::text::{
    before, comes_before, lemma_before_irreflexive, lemma_before_total, lemma_before_transitive,
    same,
};

verus! {

/// What a thing is sorted by: a number, then a text, then another text.
#[derive(Debug)]
pub struct SortKey {
    pub number: u64,
    pub first: String,
    pub second: String,
}

/// What a [`SortKey`] holds.
pub struct KeyView {
    pub number: u64,
    pub first: Seq<char>,
    pub second: Seq<char>,
}

impl View for SortKey {
    type V = KeyView;

    open spec fn view(&self) -> KeyView {
        KeyView { number: self.number, first: self.first@, second: self.second@ }
    }
}

/// Whether a thing with the key `a` goes before one with the key `b`.
pub open spec fn goes_before(a: KeyView, b: KeyView) -> bool {
    ||| a.number < b.number
    ||| a.number == b.number && before(a.first, b.first)
    ||| a.number == b.number && a.first == b.first && before(a.second, b.second)
}

/// Whether `order` lists each of the `keys` once, in their order.
pub open spec fn is_sorted_order(keys: Seq<KeyView>, order: Seq<int>) -> bool {
    &&& order.len() == keys.len()
    &&& forall|a: int| 0 <= a < order.len() ==> 0 <= #[trigger] order[a] < keys.len()
    &&& forall|a: int, b: int|
        0 <= a < b < order.len() ==> #[trigger] order[a] != #[trigger] order[b]
    &&& forall|a: int, b: int|
        0 <= a < b < order.len() ==> !goes_before(keys[#[trigger] order[b]], keys[#[trigger] order[a]])
}

/// Whether things with equal keys keep the order in which they were listed.
pub open spec fn is_stable_order(keys: Seq<KeyView>, order: Seq<int>) -> bool {
    forall|a: int, b: int|
        0 <= a < b < order.len() && keys[#[trigger] order[a]] == keys[#[trigger] order[b]]
            ==> order[a] < order[b]
}

/// What a list of keys holds.
pub open spec fn key_views(keys: Seq<SortKey>) -> Seq<KeyView> {
    keys.map_values(|k: SortKey| k@)
}

/// A list of places, as mathematical integers.
pub open spec fn places(v: Seq<usize>) -> Seq<int> {
    v.map_values(|i: usize| i as int)
}

proof fn lemma_goes_before_transitive(a: KeyView, b: KeyView, c: KeyView)
    requires
        goes_before(a, b),
        goes_before(b, c),
    ensures
        goes_before(a, c),
{
    if a.number == b.number && b.number == c.number {
        if before(a.first, b.first) && before(b.first, c.first) {
            lemma_before_transitive(a.first, b.first, c.first);
        } else if a.first == b.first && b.first == c.first {
            lemma_before_transitive(a.second, b.second, c.second);
        }
    }
}

proof fn lemma_goes_before_total(a: KeyView, b: KeyView)
    ensures
        goes_before(a, b) || goes_before(b, a) || a == b,
        !(goes_before(a, b) && goes_before(b, a)),
{
    lemma_before_total(a.first, b.first);
    lemma_before_total(a.second, b.second);
    if goes_before(a, b) && goes_before(b, a) {
        lemma_goes_before_transitive(a, b, a);
        lemma_before_irreflexive(a.first);
        lemma_before_irreflexive(a.second);
    }
}

/// What does not go after something that goes before `c`, does not go after
/// `c`.
proof fn lemma_not_after(a: KeyView, b: KeyView, c: KeyView)
    requires
        !goes_before(b, a),
        goes_before(b, c),
    ensures
        !goes_before(c, a),
{
    if goes_before(c, a) {
        lemma_goes_before_transitive(b, c, a);
    }
}

fn precedes(a: &SortKey, b: &SortKey) -> (r: bool)
    ensures
        r == goes_before(a@, b@),
{
    if a.number != b.number {
        return a.number < b.number;
    }
    if !same(a.first.as_str(), b.first.as_str()) {
        return comes_before(a.first.as_str(), b.first.as_str());
    }
    proof {
        lemma_before_irreflexive(a.first@);
    }
    comes_before(a.second.as_str(), b.second.as_str())
}

/// The places of `keys` in their order. Of two equal keys the one that was listed
/// first stays first.
pub fn sorted_order(keys: &Vec<SortKey>) -> (order: Vec<usize>)
    ensures
        is_sorted_order(key_views(keys@), places(order@)),
        is_stable_order(key_views(keys@), places(order@)),
{
    let ghost ks = key_views(keys@);
    let mut order: Vec<usize> = Vec::new();
    let mut n: usize = 0;
    while n < keys.len()
        invariant
            n <= keys.len(),
            ks == key_views(keys@),
            order.len() == n,
            forall|a: int| 0 <= a < n ==> 0 <= #[trigger] order@[a] < n,
            forall|a: int, b: int|
                0 <= a < b < n ==> #[trigger] order@[a] != #[trigger] order@[b],
            forall|a: int, b: int|
                0 <= a < b < n ==> !goes_before(
                    ks[#[trigger] order@[b] as int],
                    ks[#[trigger] order@[a] as int],
                ),
            forall|a: int, b: int|
                0 <= a < b < n && ks[#[trigger] order@[a] as int] == ks[#[trigger] order@[b] as int]
                    ==> order@[a] < order@[b],
        decreases keys.len() - n,
    {
        let mut at: usize = n;
        while at > 0 && precedes(&keys[n], &keys[order[at - 1]])
            invariant
                at <= n < keys.len(),
                ks == key_views(keys@),
                order.len() == n,
                forall|a: int| 0 <= a < n ==> 0 <= #[trigger] order@[a] < n,
                forall|a: int|
                    at <= a < n ==> goes_before(ks[n as int], ks[#[trigger] order@[a] as int]),
            decreases at,
        {
            proof {
                assert(ks[n as int] == keys@[n as int]@);
                assert(ks[order@[at - 1] as int] == keys@[order@[at - 1] as int]@);
            }
            at = at - 1;
        }
        let ghost before_insert = order@;
        proof {
            if at > 0 {
                assert(ks[n as int] == keys@[n as int]@);
                assert(ks[order@[at - 1] as int] == keys@[order@[at - 1] as int]@);
                assert(!goes_before(ks[n as int], ks[order@[at - 1] as int]));
            }
        }
        order.insert(at, n);
        proof {
            let o = order@;
            assert(o =~= before_insert.insert(at as int, n));
            assert forall|a: int, b: int| 0 <= a < b < n + 1 implies !goes_before(
                ks[#[trigger] o[b] as int],
                ks[#[trigger] o[a] as int],
            ) by {
                if b < at {
                    assert(o[a] == before_insert[a] && o[b] == before_insert[b]);
                } else if b == at {
                    assert(o[a] == before_insert[a]);
                    let last = before_insert[at - 1] as int;
                    if a < at - 1 {
                        // The last one before the gap does not go before `a`.
                        assert(!goes_before(ks[last], ks[before_insert[a] as int]));
                        lemma_goes_before_total(ks[last], ks[n as int]);
                        if goes_before(ks[last], ks[n as int]) {
                            lemma_not_after(ks[before_insert[a] as int], ks[last], ks[n as int]);
                        }
                    }
                } else if a < at {
                    assert(o[a] == before_insert[a] && o[b] == before_insert[b - 1]);
                } else if a == at {
                    assert(o[b] == before_insert[b - 1]);
                    lemma_goes_before_total(ks[n as int], ks[before_insert[b - 1] as int]);
                } else {
                    assert(o[a] == before_insert[a - 1] && o[b] == before_insert[b - 1]);
                }
            }
            assert forall|a: int, b: int|
                0 <= a < b < n + 1 && ks[#[trigger] o[a] as int] == ks[#[trigger] o[b] as int] implies o[a]
                < o[b] by {
                let x = if a < at {
                    a
                } else {
                    a - 1
                };
                let y = if b < at {
                    b
                } else {
                    b - 1
                };
                if a != at {
                    assert(o[a] == before_insert[x]);
                }
                if b != at {
                    assert(o[b] == before_insert[y]);
                }
                if a == at {
                    // What comes after the gap has a greater key.
                    lemma_goes_before_total(ks[n as int], ks[before_insert[y] as int]);
                }
            }
            assert forall|a: int| 0 <= a < n + 1 implies 0 <= #[trigger] o[a] < n + 1 by {
                if a < at {
                    assert(o[a] == before_insert[a]);
                } else if a > at {
                    assert(o[a] == before_insert[a - 1]);
                }
            }
            assert forall|a: int, b: int| 0 <= a < b < n + 1 implies #[trigger] o[a]
                != #[trigger] o[b] by {
                let x = if a < at {
                    a
                } else {
                    a - 1
                };
                let y = if b < at {
                    b
                } else {
                    b - 1
                };
                if a != at {
                    assert(o[a] == before_insert[x]);
                }
                if b != at {
                    assert(o[b] == before_insert[y]);
                }
            }
        }
        n = n + 1;
    }
    proof {
        let o = places(order@);
        assert forall|a: int| 0 <= a < o.len() implies 0 <= #[trigger] o[a] < ks.len() by {
            assert(o[a] == order@[a]);
        }
        assert forall|a: int, b: int| 0 <= a < b < o.len() implies #[trigger] o[a] != #[trigger] o[b] by {
            assert(o[a] == order@[a] && o[b] == order@[b]);
        }
        assert forall|a: int, b: int| 0 <= a < b < o.len() implies !goes_before(
            ks[#[trigger] o[b]],
            ks[#[trigger] o[a]],
        ) by {
            assert(o[a] == order@[a] && o[b] == order@[b]);
        }
        assert forall|a: int, b: int|
            0 <= a < b < o.len() && ks[#[trigger] o[a]] == ks[#[trigger] o[b]] implies o[a] < o[b] by {
            assert(o[a] == order@[a] && o[b] == order@[b]);
        }
    }
    order
}

/// Two orders of the same keys give the same row of keys: what is sorted by is
/// decided, whatever the order of things with equal keys.
pub proof fn law_sorted_keys_are_decided(keys: Seq<KeyView>, x: Seq<int>, y: Seq<int>, a: int)
    requires
        is_sorted_order(keys, x),
        is_sorted_order(keys, y),
        0 <= a < keys.len(),
    ensures
        keys[x[a]] == keys[y[a]],
{
    lemma_goes_before_total(keys[x[a]], keys[y[a]]);
    lemma_no_smaller(keys, x, y, a);
    lemma_no_smaller(keys, y, x, a);
}

proof fn lemma_no_smaller(keys: Seq<KeyView>, x: Seq<int>, y: Seq<int>, a: int)
    requires
        is_sorted_order(keys, x),
        is_sorted_order(keys, y),
        0 <= a < keys.len(),
    ensures
        !goes_before(keys[x[a]], keys[y[a]]),
{
    if goes_before(keys[x[a]], keys[y[a]]) {
        // The first a + 1 places of x all hold keys that go before y's key at
        // `a`, so y would have to list them all within its first `a` places.
        let low = x.take(a + 1);
        let room = y.take(a);
        assert forall|i: int| 0 <= i < low.len() implies room.contains(#[trigger] low[i]) by {
            assert(low[i] == x[i]);
            if i < a {
                lemma_not_after_first(keys[x[i]], keys[x[a]], keys[y[a]]);
            }
            law_every_place_is_listed(keys, y, x[i]);
            let k = choose|k: int| 0 <= k < y.len() && y[k] == x[i];
            if k > a {
                assert(!goes_before(keys[y[k]], keys[y[a]]));
            } else if k == a {
                lemma_goes_before_total(keys[y[a]], keys[y[a]]);
            }
            assert(k < a);
            assert(room[k] == y[k]);
        }
        assert(low.no_duplicates()) by {
            assert forall|i: int, j: int|
                0 <= i < low.len() && 0 <= j < low.len() && i != j implies low[i] != low[j] by {
                assert(low[i] == x[i] && low[j] == x[j]);
                if i < j {
                    assert(x[i] != x[j]);
                } else {
                    assert(x[j] != x[i]);
                }
            }
        }
        low.unique_seq_to_set();
        room.lemma_cardinality_of_set();
        assert(low.to_set().subset_of(room.to_set()));
        vstd::set_lib::lemma_len_subset(low.to_set(), room.to_set());
        assert(low.len() <= room.len());
    }
}

proof fn lemma_not_after_first(a: KeyView, b: KeyView, c: KeyView)
    requires
        !goes_before(b, a),
        goes_before(b, c),
    ensures
        goes_before(a, c),
{
    lemma_goes_before_total(a, b);
    if goes_before(a, b) {
        lemma_goes_before_transitive(a, b, c);
    }
}

/// A sorted order leaves nothing out.
pub proof fn law_every_place_is_listed(keys: Seq<KeyView>, y: Seq<int>, v: int)
    requires
        is_sorted_order(keys, y),
        0 <= v < keys.len(),
    ensures
        exists|k: int| 0 <= k < y.len() && y[k] == v,
{
    lemma_different_numbers(y, keys.len() as int);
    assert(y.contains(v));
}

/// There are no more than `n` different numbers below `n`, and a list of `n` of
/// them holds every number below `n`.
pub proof fn lemma_different_numbers(y: Seq<int>, n: int)
    requires
        0 <= n,
        forall|a: int| 0 <= a < y.len() ==> 0 <= #[trigger] y[a] < n,
        forall|a: int, b: int| 0 <= a < b < y.len() ==> #[trigger] y[a] != #[trigger] y[b],
    ensures
        y.len() <= n,
        y.len() == n ==> forall|v: int| 0 <= v < n ==> #[trigger] y.contains(v),
{
    assert(y.no_duplicates()) by {
        assert forall|i: int, j: int| 0 <= i < y.len() && 0 <= j < y.len() && i != j implies y[i] != y[j] by {
            if i < j {
                assert(y[i] != y[j]);
            } else {
                assert(y[j] != y[i]);
            }
        }
    }
    y.unique_seq_to_set();
    let all = vstd::set_lib::set_int_range(0, n);
    vstd::set_lib::lemma_int_range(0, n);
    assert(y.to_set().subset_of(all)) by {
        assert forall|e: int| y.to_set().contains(e) implies all.contains(e) by {
            let k = choose|k: int| 0 <= k < y.len() && y[k] == e;
            assert(0 <= y[k] < n);
        }
    }
    vstd::set_lib::lemma_len_subset(y.to_set(), all);
    if y.len() == n {
        vstd::set_lib::lemma_subset_equality(y.to_set(), all);
        assert forall|v: int| 0 <= v < n implies #[trigger] y.contains(v) by {
            assert(all.contains(v));
            assert(y.to_set().contains(v));
        }
    }
}

/// Keys are compared by their number, then by their first text, then by their
/// second one: each counts only where those before it are equal.
pub proof fn law_number_counts_before_the_texts(a: KeyView, b: KeyView)
    ensures
        a.number < b.number ==> goes_before(a, b) && !goes_before(b, a),
        a.number == b.number && a.first != b.first ==> (goes_before(a, b) <==> before(
            a.first,
            b.first,
        )),
        a.number == b.number && a.first == b.first ==> (goes_before(a, b) <==> before(
            a.second,
            b.second,
        )),
{
    lemma_before_irreflexive(a.first);
}

} // verus!
