//! The whole-number steps of distributing flexible items between fixed ones.
//!
//! Redistribution sorts the fixed items by angle, splits the circle into the
//! segments between consecutive fixed items and gives each segment a share of
//! the flexible items in proportion to its width: the whole part of its share
//! first, then one more item to each of the segments with the largest
//! fractional parts until every flexible item has a place. The items of a
//! segment are then spread evenly inside it. The angles themselves need
//! floating-point arithmetic and are computed by the caller; the steps below
//! decide which item goes where.

use vstd::prelude::*;
use vstd::set_lib::{set_int_range, lemma_int_range, lemma_map_size, lemma_subset_equality};
use crate::item::MenuItem;

verus! {

/// The indices of the first `n` items whose `fixed_position` is `fixed`, in order.
pub open spec fn indices_where(items: Seq<MenuItem>, fixed: bool, n: int) -> Seq<usize>
    decreases n,
{
    if n <= 0 {
        Seq::empty()
    } else if items[n - 1].fixed_position == fixed {
        indices_where(items, fixed, n - 1).push((n - 1) as usize)
    } else {
        indices_where(items, fixed, n - 1)
    }
}

/// Splits the indices of `items` into those of the fixed items and those of
/// the flexible ones, each in the order of `items`.
pub fn split_fixed(items: &Vec<MenuItem>) -> (r: (Vec<usize>, Vec<usize>))
    ensures
        r.0@ == indices_where(items@, true, items@.len() as int),
        r.1@ == indices_where(items@, false, items@.len() as int),
{
    let mut fixed: Vec<usize> = Vec::new();
    let mut flexible: Vec<usize> = Vec::new();
    let mut i: usize = 0;
    while i < items.len()
        invariant
            i <= items@.len(),
            fixed@ == indices_where(items@, true, i as int),
            flexible@ == indices_where(items@, false, i as int),
        decreases items@.len() - i,
    {
        if items[i].fixed_position {
            fixed.push(i);
        } else {
            flexible.push(i);
        }
        i = i + 1;
    }
    (fixed, flexible)
}

/// Splitting partitions the items: the fixed list holds exactly the fixed
/// items and the flexible list exactly the others, so the angles assigned
/// through the flexible list never touch a fixed item.
pub proof fn lemma_split_partitions(items: Seq<MenuItem>, fixed: bool, n: int)
    requires
        0 <= n <= items.len(),
        items.len() <= usize::MAX,
    ensures
        forall|k: int|
            0 <= k < indices_where(items, fixed, n).len() ==> #[trigger] indices_where(items, fixed, n)[k] < n
                && items[indices_where(items, fixed, n)[k] as int].fixed_position == fixed,
        forall|i: int| 0 <= i < n && #[trigger] items[i].fixed_position == fixed ==> indices_where(items, fixed, n).contains(
            i as usize,
        ),
        forall|a: int, b: int|
            0 <= a < b < indices_where(items, fixed, n).len() ==> indices_where(items, fixed, n)[a] < indices_where(
                items,
                fixed,
                n,
            )[b],
    decreases n,
{
    if n > 0 {
        lemma_split_partitions(items, fixed, n - 1);
        let prev = indices_where(items, fixed, n - 1);
        let cur = indices_where(items, fixed, n);
        if items[n - 1].fixed_position == fixed {
            assert(cur == prev.push((n - 1) as usize));
            assert forall|k: int| 0 <= k < cur.len() implies #[trigger] cur[k] < n && items[cur[k] as int].fixed_position
                == fixed by {
                if k < prev.len() {
                    assert(cur[k] == prev[k]);
                }
            }
            assert forall|a: int, b: int| 0 <= a < b < cur.len() implies cur[a] < cur[b] by {
                assert(cur[a] == prev[a]);
                if b < prev.len() {
                    assert(cur[b] == prev[b]);
                }
            }
        } else {
            assert(cur == prev);
        }
        assert forall|i: int| 0 <= i < n && #[trigger] items[i].fixed_position == fixed implies cur.contains(i as usize) by {
            if i < n - 1 {
                let k = choose|k: int| 0 <= k < prev.len() && prev[k] == i as usize;
                assert(cur[k] == prev[k]);
            } else {
                assert(cur[cur.len() - 1] == (n - 1) as usize);
            }
        }
    }
}

/// Segment `j` comes before segment `i` when segments are ordered by
/// descending key, equal keys keeping their order.
pub open spec fn ranks_before(keys: Seq<u32>, j: int, i: int) -> bool {
    keys[j] > keys[i] || (keys[j] == keys[i] && j < i)
}

/// How many of the first `n` segments come before segment `i`.
pub open spec fn ahead(keys: Seq<u32>, i: int, n: int) -> nat
    decreases n,
{
    if n <= 0 {
        0
    } else {
        ahead(keys, i, n - 1) + if ranks_before(keys, n - 1, i) {
            1nat
        } else {
            0nat
        }
    }
}

/// The place of segment `i` (from 0) when all segments are ordered by
/// descending key, equal keys keeping their order.
pub open spec fn rank(keys: Seq<u32>, i: int) -> nat {
    ahead(keys, i, keys.len() as int)
}

/// The allocation after the remainder is handed out: one more item for each
/// segment whose rank is below `remainder`.
pub open spec fn with_remainder(floors: Seq<usize>, keys: Seq<u32>, remainder: int, i: int) -> int {
    floors[i] + if rank(keys, i) < remainder {
        1int
    } else {
        0int
    }
}

/// Largest-remainder rounding: each segment keeps its whole share `floors[i]`,
/// and the `remainder` segments that come first by descending fractional part
/// (given as keys that order as the fractional parts do; equal parts keep
/// their order) get one item more.
pub fn distribute_remainder(floors: &Vec<usize>, fraction_keys: &Vec<u32>, remainder: usize) -> (r: Vec<usize>)
    requires
        floors@.len() == fraction_keys@.len(),
        forall|i: int| 0 <= i < floors@.len() ==> #[trigger] floors@[i] < usize::MAX,
    ensures
        r@.len() == floors@.len(),
        forall|i: int| 0 <= i < floors@.len() ==> #[trigger] r@[i] == with_remainder(floors@, fraction_keys@, remainder as int, i),
{
    let n = floors.len();
    let mut r: Vec<usize> = Vec::new();
    let mut i: usize = 0;
    while i < n
        invariant
            n == floors@.len(),
            n == fraction_keys@.len(),
            i <= n,
            r@.len() == i,
            forall|k: int| 0 <= k < n ==> #[trigger] floors@[k] < usize::MAX,
            forall|k: int| 0 <= k < i ==> #[trigger] r@[k] == with_remainder(floors@, fraction_keys@, remainder as int, k),
        decreases n - i,
    {
        let mut count: usize = 0;
        let mut j: usize = 0;
        while j < n
            invariant
                n == fraction_keys@.len(),
                i < n,
                j <= n,
                count == ahead(fraction_keys@, i as int, j as int),
                count <= j,
            decreases n - j,
        {
            if fraction_keys[j] > fraction_keys[i] || (fraction_keys[j] == fraction_keys[i] && j < i) {
                count = count + 1;
            }
            j = j + 1;
        }
        if count < remainder {
            r.push(floors[i] + 1);
        } else {
            r.push(floors[i]);
        }
        i = i + 1;
    }
    r
}

/// Segments ordered by descending key form a chain: coming before is transitive.
proof fn lemma_ranks_before_transitive(keys: Seq<u32>, k: int, j: int, i: int)
    requires
        ranks_before(keys, k, j),
        ranks_before(keys, j, i),
    ensures
        ranks_before(keys, k, i),
{
}

/// When segment `j` comes before segment `i`, everything before `j` is before
/// `i` too, and so is `j` itself.
proof fn lemma_ahead_grows(keys: Seq<u32>, j: int, i: int, n: int)
    requires
        ranks_before(keys, j, i),
        0 <= n,
    ensures
        ahead(keys, i, n) >= ahead(keys, j, n) + if 0 <= j < n {
            1int
        } else {
            0int
        },
    decreases n,
{
    if n > 0 {
        lemma_ahead_grows(keys, j, i, n - 1);
        if ranks_before(keys, n - 1, j) {
            lemma_ranks_before_transitive(keys, n - 1, j, i);
        }
    }
}

/// No segment comes before itself, so fewer than `n` of the first `n` come before one of them.
proof fn lemma_ahead_bound(keys: Seq<u32>, i: int, n: int)
    requires
        0 <= n,
    ensures
        ahead(keys, i, n) <= n - if 0 <= i < n {
            1int
        } else {
            0int
        },
    decreases n,
{
    if n > 0 {
        lemma_ahead_bound(keys, i, n - 1);
    }
}

/// The ranks of distinct segments differ and lie below the number of segments.
proof fn lemma_rank_injective(keys: Seq<u32>, i: int, j: int)
    requires
        0 <= i < keys.len(),
        0 <= j < keys.len(),
    ensures
        rank(keys, i) < keys.len(),
        i != j ==> rank(keys, i) != rank(keys, j),
{
    lemma_ahead_bound(keys, i, keys.len() as int);
    if i != j {
        if ranks_before(keys, j, i) {
            lemma_ahead_grows(keys, j, i, keys.len() as int);
        } else {
            lemma_ahead_grows(keys, i, j, keys.len() as int);
        }
    }
}

/// Every place below the number of segments is the rank of some segment.
proof fn lemma_rank_onto(keys: Seq<u32>, v: int)
    requires
        0 <= v < keys.len(),
    ensures
        exists|i: int| 0 <= i < keys.len() && #[trigger] rank(keys, i) == v,
{
    let n = keys.len() as int;
    let x = set_int_range(0, n);
    let f = |i: int| rank(keys, i) as int;
    lemma_int_range(0, n);
    assert forall|a: int, b: int| x.contains(a) && x.contains(b) && #[trigger] f(a) == #[trigger] f(b) implies a == b by {
        lemma_rank_injective(keys, a, b);
    }
    lemma_map_size(x, x.map(f), f);
    assert forall|v: int| #[trigger] x.map(f).contains(v) implies x.contains(v) by {
        let a = choose|a: int| x.contains(a) && f(a) == v;
        lemma_rank_injective(keys, a, a);
    }
    lemma_subset_equality(x.map(f), x);
    assert(x.contains(v));
    assert(x.map(f).contains(v));
    let a = choose|a: int| x.contains(a) && f(a) == v;
    assert(rank(keys, a) == v);
}

/// Handing out a remainder gives exactly one more item to each of
/// `min(remainder, segments)` segments: the segments whose rank is below the
/// remainder are as many as that.
pub proof fn lemma_remainder_handed_out(keys: Seq<u32>, remainder: nat)
    ensures
        set_int_range(0, keys.len() as int).filter(|i: int| rank(keys, i) < remainder).len() == if remainder
            < keys.len() {
            remainder
        } else {
            keys.len()
        },
{
    let n = keys.len() as int;
    let m: int = if remainder < keys.len() {
        remainder as int
    } else {
        n
    };
    let x = set_int_range(0, n);
    let sel = x.filter(|i: int| rank(keys, i) < remainder);
    let f = |i: int| rank(keys, i) as int;
    let t = set_int_range(0, m);
    lemma_int_range(0, n);
    lemma_int_range(0, m);
    assert(sel.subset_of(x));
    vstd::set_lib::lemma_len_subset(sel, x);
    assert forall|a: int, b: int| sel.contains(a) && sel.contains(b) && #[trigger] f(a) == #[trigger] f(b) implies a == b by {
        lemma_rank_injective(keys, a, b);
    }
    assert forall|v: int| #[trigger] sel.map(f).contains(v) <==> t.contains(v) by {
        if sel.map(f).contains(v) {
            let a = choose|a: int| sel.contains(a) && f(a) == v;
            lemma_rank_injective(keys, a, a);
        }
        if t.contains(v) {
            lemma_rank_onto(keys, v);
            let a = choose|a: int| 0 <= a < n && #[trigger] rank(keys, a) == v;
            assert(sel.contains(a));
            assert(sel.map(f).contains(f(a)));
        }
    }
    assert(sel.map(f) =~= t);
    lemma_map_size(sel, t, f);
}

/// The number of items of the first `s` segments.
pub open spec fn prefix_sum(counts: Seq<usize>, s: int) -> int
    decreases s,
{
    if s <= 0 {
        0
    } else {
        prefix_sum(counts, s - 1) + counts[s - 1]
    }
}

/// Prefix sums do not decrease.
pub proof fn lemma_prefix_sum_monotone(counts: Seq<usize>, a: int, b: int)
    requires
        0 <= a <= b <= counts.len(),
    ensures
        0 <= prefix_sum(counts, a) <= prefix_sum(counts, b),
    decreases b,
{
    if b > a {
        lemma_prefix_sum_monotone(counts, a, b - 1);
    } else if a > 0 {
        lemma_prefix_sum_monotone(counts, 0, a - 1);
    }
}

/// How many of the first `n` segments rank below `remainder`.
pub open spec fn ranked_below(keys: Seq<u32>, remainder: nat, n: int) -> nat
    decreases n,
{
    if n <= 0 {
        0
    } else {
        ranked_below(keys, remainder, n - 1) + if rank(keys, n - 1) < remainder {
            1nat
        } else {
            0nat
        }
    }
}

/// The count of the first `n` segments ranking below `remainder` is the size
/// of the set of those segments.
proof fn lemma_ranked_below_is_set_size(keys: Seq<u32>, remainder: nat, n: int)
    requires
        0 <= n,
    ensures
        set_int_range(0, n).filter(|i: int| rank(keys, i) < remainder).finite(),
        ranked_below(keys, remainder, n) == set_int_range(0, n).filter(|i: int| rank(keys, i) < remainder).len(),
    decreases n,
{
    let p = |i: int| rank(keys, i) < remainder;
    lemma_int_range(0, n);
    if n == 0 {
        assert(set_int_range(0, 0).filter(p) =~= Set::<int>::empty());
    } else {
        lemma_ranked_below_is_set_size(keys, remainder, n - 1);
        let prev = set_int_range(0, n - 1).filter(p);
        let cur = set_int_range(0, n).filter(p);
        if p(n - 1) {
            assert(cur =~= prev.insert(n - 1));
            assert(!prev.contains(n - 1));
        } else {
            assert(cur =~= prev);
        }
    }
}

/// Handing out a remainder adds exactly `min(remainder, segments)` items in
/// total: the allocations sum to the whole shares plus that many.
pub proof fn lemma_allocation_total(floors: Seq<usize>, keys: Seq<u32>, remainder: nat, r: Seq<usize>)
    requires
        floors.len() == keys.len(),
        r.len() == floors.len(),
        forall|i: int| 0 <= i < floors.len() ==> #[trigger] r[i] == with_remainder(floors, keys, remainder as int, i),
    ensures
        prefix_sum(r, r.len() as int) == prefix_sum(floors, floors.len() as int) + if remainder < keys.len() {
            remainder as int
        } else {
            keys.len() as int
        },
{
    lemma_prefix_with_remainder(floors, keys, remainder, r, r.len() as int);
    lemma_ranked_below_is_set_size(keys, remainder, keys.len() as int);
    lemma_remainder_handed_out(keys, remainder);
}

proof fn lemma_prefix_with_remainder(floors: Seq<usize>, keys: Seq<u32>, remainder: nat, r: Seq<usize>, n: int)
    requires
        floors.len() == keys.len(),
        r.len() == floors.len(),
        0 <= n <= r.len(),
        forall|i: int| 0 <= i < floors.len() ==> #[trigger] r[i] == with_remainder(floors, keys, remainder as int, i),
    ensures
        prefix_sum(r, n) == prefix_sum(floors, n) + ranked_below(keys, remainder, n),
    decreases n,
{
    if n > 0 {
        lemma_prefix_with_remainder(floors, keys, remainder, r, n - 1);
        assert(r[n - 1] == with_remainder(floors, keys, remainder as int, n - 1));
    }
}

/// Every slot of the first `s` segments lies below `prefix_sum(counts, s)`.
proof fn lemma_prefix_sum_slots(counts: Seq<usize>, s: int)
    requires
        0 <= s <= counts.len(),
    ensures
        forall|t: int, p: int|
            0 <= t < s && 0 <= p < counts[t] ==> 0 <= #[trigger] (prefix_sum(counts, t) + p) < prefix_sum(counts, s),
{
    assert forall|t: int, p: int| 0 <= t < s && 0 <= p < counts[t] implies 0 <= #[trigger] (prefix_sum(counts, t) + p)
        < prefix_sum(counts, s) by {
        lemma_prefix_sum_monotone(counts, t + 1, s);
        lemma_prefix_sum_monotone(counts, 0, t);
    }
}

/// The slot of each item in turn when `counts[s]` consecutive items go to
/// segment `s`: the segment, the item's place in it (from 1) and the
/// segment's count. The item at `prefix_sum(counts, s) + o` is the `o + 1`-th
/// of segment `s`.
pub fn assign_slots(counts: &Vec<usize>) -> (r: Vec<(usize, usize, usize)>)
    requires
        prefix_sum(counts@, counts@.len() as int) <= usize::MAX,
    ensures
        r@.len() == prefix_sum(counts@, counts@.len() as int),
        forall|s: int, o: int|
            0 <= s < counts@.len() && 0 <= o < counts@[s] ==> #[trigger] r@[prefix_sum(counts@, s) + o] == (
                s as usize,
                (o + 1) as usize,
                counts@[s],
            ),
{
    let ghost total = prefix_sum(counts@, counts@.len() as int);
    let mut r: Vec<(usize, usize, usize)> = Vec::new();
    let mut s: usize = 0;
    while s < counts.len()
        invariant
            s <= counts@.len(),
            total == prefix_sum(counts@, counts@.len() as int),
            total <= usize::MAX,
            r@.len() == prefix_sum(counts@, s as int),
            forall|t: int, o: int|
                0 <= t < s && 0 <= o < counts@[t] ==> #[trigger] r@[prefix_sum(counts@, t) + o] == (
                    t as usize,
                    (o + 1) as usize,
                    counts@[t],
                ),
        decreases counts@.len() - s,
    {
        let count = counts[s];
        let mut o: usize = 0;
        proof {
            lemma_prefix_sum_monotone(counts@, s + 1, counts@.len() as int);
        }
        while o < count
            invariant
                s < counts@.len(),
                count == counts@[s as int],
                o <= count,
                prefix_sum(counts@, s + 1) <= usize::MAX,
                r@.len() == prefix_sum(counts@, s as int) + o,
                forall|t: int, p: int|
                    0 <= t < s && 0 <= p < counts@[t] ==> #[trigger] r@[prefix_sum(counts@, t) + p] == (
                        t as usize,
                        (p + 1) as usize,
                        counts@[t],
                    ),
                forall|p: int| 0 <= p < o ==> #[trigger] r@[prefix_sum(counts@, s as int) + p] == (s, (p + 1) as usize, count),
            decreases count - o,
        {
            proof {
                lemma_prefix_sum_slots(counts@, s as int);
            }
            let ghost r0 = r@;
            r.push((s, o + 1, count));
            proof {
                let base = prefix_sum(counts@, s as int);
                lemma_prefix_sum_monotone(counts@, 0, s as int);
                assert forall|p: int| 0 <= p < o + 1 implies #[trigger] r@[base + p] == (s, (p + 1) as usize, count) by {
                    if p < o {
                        assert(r@[base + p] == r0[base + p]);
                    }
                }
                assert forall|t: int, p: int| 0 <= t < s && 0 <= p < counts@[t] implies #[trigger] r@[prefix_sum(counts@, t) + p]
                    == r0[prefix_sum(counts@, t) + p] by {
                }
            }
            o = o + 1;
        }
        proof {
            assert forall|t: int, p: int|
                0 <= t < s + 1 && 0 <= p < counts@[t] implies #[trigger] r@[prefix_sum(counts@, t) + p] == (
                    t as usize,
                    (p + 1) as usize,
                    counts@[t],
                ) by {
                if t == s {
                } else {
                }
            }
        }
        s = s + 1;
    }
    r
}

} // verus!
