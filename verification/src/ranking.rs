//! Ordering positions by a key.

use vstd::prelude::*;

verus! {

/// Number of the lowest `n` bits of `x` that are set.
pub open spec fn bits_set(x: u64, n: int) -> nat
    decreases n,
{
    if n <= 0 {
        0
    } else {
        bits_set(x, n - 1) + if x & (1u64 << ((n - 1) as u64)) != 0 {
            1nat
        } else {
            0nat
        }
    }
}

/// Number of bits of `x` that are set.
pub open spec fn popcount(x: u64) -> nat {
    bits_set(x, 64)
}

/// Number of bits of `x` that are set.
pub fn count_ones(x: u64) -> (n: usize)
    ensures
        n == popcount(x),
        n <= 64,
{
    let mut n: usize = 0;
    let mut i: u64 = 0;
    while i < 64
        invariant
            i <= 64,
            n == bits_set(x, i as int),
            n <= i,
        decreases 64 - i,
    {
        if x & (1u64 << i) != 0 {
            n += 1;
        }
        i += 1;
    }
    n
}

/// Position of the first item at or after `from` whose key is above `key`,
/// or the number of items where there is none.
pub open spec fn first_above(s: Seq<usize>, keys: Seq<u64>, key: u64, from: int) -> int
    decreases s.len() - from,
{
    if from < 0 || from >= s.len() {
        s.len() as int
    } else if keys[s[from] as int] > key {
        from
    } else {
        first_above(s, keys, key, from + 1)
    }
}

/// The positions `s` in the order of their keys, positions of one key in the
/// order in which they stand in `s`.
pub open spec fn sorted_by_key(s: Seq<usize>, keys: Seq<u64>) -> Seq<usize>
    decreases s.len(),
{
    if s.len() == 0 {
        Seq::empty()
    } else {
        let before = sorted_by_key(s.drop_last(), keys);
        before.insert(first_above(before, keys, keys[s.last() as int], 0), s.last())
    }
}

/// No key falls from one item to the next.
pub open spec fn rising(s: Seq<usize>, keys: Seq<u64>) -> bool {
    forall|a: int, b: int| 0 <= a < b < s.len() ==> keys[s[a] as int] <= keys[s[b] as int]
}

pub proof fn lemma_first_above(s: Seq<usize>, keys: Seq<u64>, key: u64, from: int)
    requires
        0 <= from <= s.len(),
    ensures
        from <= first_above(s, keys, key, from) <= s.len(),
        forall|i: int| from <= i < first_above(s, keys, key, from) ==> keys[s[i] as int] <= key,
        first_above(s, keys, key, from) < s.len() ==> keys[s[first_above(s, keys, key, from)] as int]
            > key,
    decreases s.len() - from,
{
    if from < s.len() && !(keys[s[from] as int] > key) {
        lemma_first_above(s, keys, key, from + 1);
    }
}

/// The sorted positions are the same positions, and their keys rise.
pub proof fn lemma_sorted_by_key(s: Seq<usize>, keys: Seq<u64>)
    ensures
        sorted_by_key(s, keys).to_multiset() == s.to_multiset(),
        sorted_by_key(s, keys).len() == s.len(),
        rising(sorted_by_key(s, keys), keys),
    decreases s.len(),
{
    if s.len() == 0 {
        assert(s =~= Seq::<usize>::empty());
    } else {
        let init = s.drop_last();
        let x = s.last();
        let before = sorted_by_key(init, keys);
        lemma_sorted_by_key(init, keys);
        let at = first_above(before, keys, keys[x as int], 0);
        lemma_first_above(before, keys, keys[x as int], 0);
        let now = before.insert(at, x);
        assert(sorted_by_key(s, keys) == now);
        vstd::seq_lib::to_multiset_insert(before, at, x);
        assert(s =~= init.push(x));
        vstd::seq_lib::to_multiset_build(init, x);
        assert(now.to_multiset() == before.to_multiset().insert(x));
        assert(init.push(x).to_multiset() == init.to_multiset().insert(x));
        assert(now.to_multiset() == s.to_multiset());
        assert forall|a: int, b: int| 0 <= a < b < now.len() implies keys[now[a] as int]
            <= keys[now[b] as int] by {
            if a < at && b > at {
                assert(now[a] == before[a]);
                assert(now[b] == before[b - 1]);
                if a < b - 1 {
                    assert(keys[before[a] as int] <= keys[before[b - 1] as int]);
                }
            } else if a < at && b < at {
                assert(now[a] == before[a] && now[b] == before[b]);
            } else if a < at && b == at {
                assert(now[a] == before[a]);
            } else if a == at {
                assert(now[b] == before[b - 1]);
                if at < b - 1 {
                    assert(keys[before[at] as int] <= keys[before[b - 1] as int]);
                }
            } else {
                assert(now[a] == before[a - 1] && now[b] == before[b - 1]);
                assert(keys[before[a - 1] as int] <= keys[before[b - 1] as int]);
            }
        }
    }
}

/// Orders positions by their keys, keeping positions of one key in the order
/// in which they come.
pub fn sort_by_key(items: &Vec<usize>, keys: &Vec<u64>) -> (sorted: Vec<usize>)
    requires
        forall|i: int| 0 <= i < items@.len() ==> (#[trigger] items@[i]) < keys@.len(),
    ensures
        sorted@ == sorted_by_key(items@, keys@),
        sorted@.to_multiset() == items@.to_multiset(),
        sorted@.len() == items@.len(),
        rising(sorted@, keys@),
{
    let mut sorted: Vec<usize> = Vec::new();
    let mut n: usize = 0;
    assert(items@.take(0) =~= Seq::<usize>::empty());
    while n < items.len()
        invariant
            n <= items@.len(),
            forall|i: int| 0 <= i < items@.len() ==> (#[trigger] items@[i]) < keys@.len(),
            sorted@ == sorted_by_key(items@.take(n as int), keys@),
            sorted@.len() == n,
            forall|i: int| 0 <= i < sorted@.len() ==> (#[trigger] sorted@[i]) < keys@.len(),
        decreases items@.len() - n,
    {
        let x = items[n];
        let key = keys[x];
        let mut at: usize = 0;
        while at < sorted.len() && keys[sorted[at]] <= key
            invariant
                at <= sorted@.len(),
                x < keys@.len(),
                forall|i: int| 0 <= i < sorted@.len() ==> (#[trigger] sorted@[i]) < keys@.len(),
                first_above(sorted@, keys@, key, 0) == first_above(sorted@, keys@, key, at as int),
            decreases sorted@.len() - at,
        {
            at += 1;
        }
        proof {
            assert(items@.take(n + 1).drop_last() =~= items@.take(n as int));
            assert(items@.take(n + 1).last() == x);
        }
        let ghost before = sorted@;
        sorted.insert(at, x);
        proof {
            assert forall|i: int| 0 <= i < sorted@.len() implies (#[trigger] sorted@[i])
                < keys@.len() by {
                if i < at {
                    assert(sorted@[i] == before[i]);
                } else if i > at {
                    assert(sorted@[i] == before[i - 1]);
                }
            }
        }
        n += 1;
    }
    proof {
        assert(items@.take(n as int) =~= items@);
        lemma_sorted_by_key(items@, keys@);
    }
    sorted
}

/// The items in the opposite order.
pub fn reversed_positions(items: &Vec<usize>) -> (r: Vec<usize>)
    ensures
        r@ == items@.reverse(),
{
    let mut r: Vec<usize> = Vec::new();
    let mut i: usize = items.len();
    while i > 0
        invariant
            i <= items@.len(),
            r@.len() == items@.len() - i,
            forall|k: int| 0 <= k < r@.len() ==> r@[k] == items@[items@.len() - 1 - k],
        decreases i,
    {
        i -= 1;
        r.push(items[i]);
    }
    assert(r@ =~= items@.reverse());
    r
}

} // verus!
