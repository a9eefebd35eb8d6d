//! Keyboard and controller selection among the items of a ring.
//!
//! Items are ordered by angle the way `f32::total_cmp` orders their `f32`
//! angles; items with equal angles keep their original relative order.

use vstd::prelude::*;
use vstd::string::*;
use crate::item::{MenuItem, same_id};

verus! {

/// The unsigned key under which `f32::total_cmp` orders the `f32` with these bits:
/// negative values (sign bit set) have all bits flipped, the others only the sign bit.
pub open spec fn total_order_key(bits: u32) -> u32 {
    if bits >= 0x8000_0000 {
        (0xffff_ffffu32 - bits) as u32
    } else {
        (bits + 0x8000_0000u32) as u32
    }
}

/// Computes [`total_order_key`].
pub fn total_order_key_of(bits: u32) -> (k: u32)
    ensures
        k == total_order_key(bits),
{
    if bits >= 0x8000_0000 {
        0xffff_ffffu32 - bits
    } else {
        bits + 0x8000_0000u32
    }
}

/// Item `i` comes before item `j` in angle order: a smaller angle, or an equal
/// angle and an earlier position.
pub open spec fn angle_before(items: Seq<MenuItem>, i: int, j: int) -> bool {
    let ki = total_order_key(items[i].angle_bits);
    let kj = total_order_key(items[j].angle_bits);
    ki < kj || (ki == kj && i < j)
}

/// `order` lists the positions of the enabled items of `items`, each once,
/// sorted by angle (a stable sort of the enabled items by angle).
pub open spec fn is_angle_order(items: Seq<MenuItem>, order: Seq<usize>) -> bool {
    &&& forall|k: int| 0 <= k < order.len() ==> #[trigger] order[k] < items.len() && items[order[k] as int].enabled
    &&& forall|i: int| 0 <= i < items.len() && #[trigger] items[i].enabled ==> order.contains(i as usize)
    &&& forall|a: int, b: int| 0 <= a < b < order.len() ==> angle_before(items, order[a] as int, order[b] as int)
}

/// The first position in `order` whose item has id `id`, if any.
pub open spec fn position_of(items: Seq<MenuItem>, order: Seq<usize>, id: Seq<char>) -> Option<int>
    decreases order.len(),
{
    if order.len() == 0 {
        None
    } else if items[order[0] as int].id@ == id {
        Some(0)
    } else {
        match position_of(items, order.drop_first(), id) {
            Some(p) => Some(p + 1),
            None => None,
        }
    }
}

/// The position in `order` a step of `direction` leads to from `current`:
/// wrapping around the ring, or the first position when there is no current item.
pub open spec fn next_position(items: Seq<MenuItem>, order: Seq<usize>, current: Option<Seq<char>>, direction: int) -> int {
    let found = match current {
        Some(id) => position_of(items, order, id),
        None => None,
    };
    match found {
        Some(p) => (p + direction) % (order.len() as int),
        None => 0,
    }
}

/// The step from the current position does not leave the range of `i32`.
pub open spec fn step_fits(items: Seq<MenuItem>, order: Seq<usize>, current: Option<Seq<char>>, direction: int) -> bool {
    match current {
        Some(id) => match position_of(items, order, id) {
            Some(p) => i32::MIN <= p + direction <= i32::MAX,
            None => true,
        },
        None => true,
    }
}

/// Strictly sorted sequences over the same positions are equal.
pub proof fn lemma_angle_order_unique(items: Seq<MenuItem>, o1: Seq<usize>, o2: Seq<usize>)
    requires
        is_angle_order(items, o1),
        is_angle_order(items, o2),
    ensures
        o1 == o2,
{
    lemma_sorted_unique(items, o1, o2);
}

proof fn lemma_sorted_unique(items: Seq<MenuItem>, o1: Seq<usize>, o2: Seq<usize>)
    requires
        forall|a: int, b: int| 0 <= a < b < o1.len() ==> angle_before(items, o1[a] as int, o1[b] as int),
        forall|a: int, b: int| 0 <= a < b < o2.len() ==> angle_before(items, o2[a] as int, o2[b] as int),
        forall|x: usize| o1.contains(x) <==> o2.contains(x),
    ensures
        o1 == o2,
    decreases o1.len(),
{
    if o1.len() == 0 {
        if o2.len() > 0 {
            assert(o2.contains(o2[0]));
        }
        assert(o1 =~= o2);
    } else {
        assert(o1.contains(o1[0]));
        assert(o2.len() > 0);
        assert(o2.contains(o2[0]));
        let p = choose|p: int| 0 <= p < o2.len() && o2[p] == o1[0];
        let q = choose|q: int| 0 <= q < o1.len() && o1[q] == o2[0];
        if p > 0 && q > 0 {
            assert(angle_before(items, o2[0] as int, o2[p] as int));
            assert(angle_before(items, o1[0] as int, o1[q] as int));
            assert(false);
        }
        assert(o1[0] == o2[0]);
        let r1 = o1.drop_first();
        let r2 = o2.drop_first();
        assert forall|x: usize| r1.contains(x) implies r2.contains(x) by {
            let i = choose|i: int| 0 <= i < r1.len() && r1[i] == x;
            assert(o1[i + 1] == x);
            assert(angle_before(items, o1[0] as int, o1[i + 1] as int));
            assert(o2.contains(x));
            let j = choose|j: int| 0 <= j < o2.len() && o2[j] == x;
            if j == 0 {
                assert(false);
            }
            assert(r2[j - 1] == x);
        }
        assert forall|x: usize| r2.contains(x) implies r1.contains(x) by {
            let i = choose|i: int| 0 <= i < r2.len() && r2[i] == x;
            assert(o2[i + 1] == x);
            assert(angle_before(items, o2[0] as int, o2[i + 1] as int));
            assert(o1.contains(x));
            let j = choose|j: int| 0 <= j < o1.len() && o1[j] == x;
            if j == 0 {
                assert(false);
            }
            assert(r1[j - 1] == x);
        }
        lemma_sorted_unique(items, r1, r2);
        assert(o1 =~= seq![o1[0]] + r1);
        assert(o2 =~= seq![o2[0]] + r2);
    }
}

proof fn lemma_distinct_bounded(s: Seq<usize>, m: nat)
    requires
        s.no_duplicates(),
        forall|i: int| 0 <= i < s.len() ==> (#[trigger] s[i] as int) < m,
    ensures
        s.len() <= m,
    decreases m,
{
    if m == 0 {
        if s.len() > 0 {
            assert((s[0] as int) < 0);
        }
    } else {
        let top = (m - 1) as usize;
        if s.contains(top) {
            let p = choose|p: int| 0 <= p < s.len() && s[p] == top;
            let t = s.remove(p);
            assert forall|i: int| 0 <= i < t.len() implies (#[trigger] t[i] as int) < m - 1 by {
                if i < p {
                    assert(t[i] == s[i]);
                } else {
                    assert(t[i] == s[i + 1]);
                }
            }
            assert forall|i: int, j: int| 0 <= i < t.len() && 0 <= j < t.len() && i != j implies t[i] != t[j] by {
                let si = if i < p { i } else { i + 1 };
                let sj = if j < p { j } else { j + 1 };
                assert(t[i] == s[si]);
                assert(t[j] == s[sj]);
            }
            lemma_distinct_bounded(t, (m - 1) as nat);
        } else {
            assert forall|i: int| 0 <= i < s.len() implies (#[trigger] s[i] as int) < m - 1 by {
                assert(s[i] != top);
            }
            lemma_distinct_bounded(s, (m - 1) as nat);
        }
    }
}

proof fn lemma_order_len(items: Seq<MenuItem>, order: Seq<usize>)
    requires
        is_angle_order(items, order),
    ensures
        order.len() <= items.len(),
{
    assert forall|a: int, b: int| 0 <= a < order.len() && 0 <= b < order.len() && a != b implies order[a]
        != order[b] by {
        if a < b {
            assert(angle_before(items, order[a] as int, order[b] as int));
        } else {
            assert(angle_before(items, order[b] as int, order[a] as int));
        }
    }
    lemma_distinct_bounded(order, items.len());
}

/// The positions of the enabled items, stably sorted by angle.
pub fn angle_order(items: &Vec<MenuItem>) -> (order: Vec<usize>)
    ensures
        is_angle_order(items@, order@),
{
    let mut order: Vec<usize> = Vec::new();
    let mut i: usize = 0;
    while i < items.len()
        invariant
            i <= items@.len(),
            forall|k: int| 0 <= k < order@.len() ==> #[trigger] order@[k] < i && items@[order@[k] as int].enabled,
            forall|j: int| 0 <= j < i && #[trigger] items@[j].enabled ==> order@.contains(j as usize),
            forall|a: int, b: int|
                0 <= a < b < order@.len() ==> angle_before(items@, order@[a] as int, order@[b] as int),
        decreases items@.len() - i,
    {
        if items[i].enabled {
            let key = total_order_key_of(items[i].angle_bits);
            let mut p: usize = 0;
            while p < order.len() && total_order_key_of(items[order[p]].angle_bits) <= key
                invariant
                    p <= order@.len(),
                    key == total_order_key(items@[i as int].angle_bits),
                    i < items@.len(),
                    forall|k: int| 0 <= k < order@.len() ==> #[trigger] order@[k] < i,
                    forall|k: int| 0 <= k < p ==> total_order_key(items@[#[trigger] order@[k] as int].angle_bits) <= key,
                decreases order@.len() - p,
            {
                p = p + 1;
            }
            let ghost old_order = order@;
            proof {
                // every position from `p` on has a strictly larger key
                assert forall|k: int| p <= k < old_order.len() implies key < total_order_key(
                    items@[#[trigger] old_order[k] as int].angle_bits,
                ) by {
                    if p < old_order.len() {
                        assert(key < total_order_key(items@[old_order[p as int] as int].angle_bits));
                        if k > p {
                            assert(angle_before(items@, old_order[p as int] as int, old_order[k] as int));
                        }
                    }
                }
            }
            order.insert(p, i);
            proof {
                assert(order@ =~= old_order.take(p as int).push(i) + old_order.skip(p as int));
                assert forall|a: int, b: int| 0 <= a < b < order@.len() implies angle_before(
                    items@,
                    order@[a] as int,
                    order@[b] as int,
                ) by {
                    if a < p && b == p {
                        assert(order@[a] == old_order[a]);
                    } else if a == p {
                        assert(order@[b] == old_order[b - 1]);
                    } else if a < p && b > p {
                        assert(order@[a] == old_order[a]);
                        assert(order@[b] == old_order[b - 1]);
                    } else if b < p {
                        assert(order@[a] == old_order[a]);
                        assert(order@[b] == old_order[b]);
                    } else {
                        assert(order@[a] == old_order[a - 1]);
                        assert(order@[b] == old_order[b - 1]);
                    }
                }
                assert forall|j: int| 0 <= j < i + 1 && #[trigger] items@[j].enabled implies order@.contains(
                    j as usize,
                ) by {
                    if j == i {
                        assert(order@[p as int] == i);
                    } else {
                        assert(old_order.contains(j as usize));
                        let k = choose|k: int| 0 <= k < old_order.len() && old_order[k] == j as usize;
                        if k < p {
                            assert(order@[k] == j as usize);
                        } else {
                            assert(order@[k + 1] == j as usize);
                        }
                    }
                }
                assert forall|k: int| 0 <= k < order@.len() implies #[trigger] order@[k] < i + 1
                    && items@[order@[k] as int].enabled by {
                    if k < p {
                        assert(order@[k] == old_order[k]);
                    } else if k > p {
                        assert(order@[k] == old_order[k - 1]);
                    }
                }
            }
        }
        i = i + 1;
    }
    order
}

proof fn lemma_position_first(items: Seq<MenuItem>, order: Seq<usize>, id: Seq<char>, k: int)
    requires
        0 <= k < order.len(),
        forall|j: int| 0 <= j < k ==> items[#[trigger] order[j] as int].id@ != id,
        items[order[k] as int].id@ == id,
    ensures
        position_of(items, order, id) == Some(k),
    decreases k,
{
    if k > 0 {
        assert(items[order[0] as int].id@ != id);
        let rest = order.drop_first();
        assert forall|j: int| 0 <= j < k - 1 implies items[#[trigger] rest[j] as int].id@ != id by {
            assert(rest[j] == order[j + 1]);
        }
        lemma_position_first(items, rest, id, k - 1);
    }
}

proof fn lemma_position_none(items: Seq<MenuItem>, order: Seq<usize>, id: Seq<char>)
    requires
        forall|j: int| 0 <= j < order.len() ==> items[#[trigger] order[j] as int].id@ != id,
    ensures
        position_of(items, order, id) is None,
    decreases order.len(),
{
    if order.len() > 0 {
        assert(items[order[0] as int].id@ != id);
        let rest = order.drop_first();
        assert forall|j: int| 0 <= j < rest.len() implies items[#[trigger] rest[j] as int].id@ != id by {
            assert(rest[j] == order[j + 1]);
        }
        lemma_position_none(items, rest, id);
    }
}

proof fn lemma_position_bound(items: Seq<MenuItem>, order: Seq<usize>, id: Seq<char>)
    ensures
        position_of(items, order, id) matches Some(p) ==> 0 <= p < order.len(),
    decreases order.len(),
{
    if order.len() > 0 {
        lemma_position_bound(items, order.drop_first(), id);
    }
}

/// The ids of the items that `order` lists are pairwise distinct.
pub open spec fn distinct_ids(items: Seq<MenuItem>, order: Seq<usize>) -> bool {
    forall|a: int, b: int|
        0 <= a < b < order.len() ==> items[#[trigger] order[a] as int].id@ != items[#[trigger] order[b] as int].id@
}

/// Cycling back undoes a step: when the ids on the ring are distinct and the
/// current selection is on it, a step of `direction` and then a step of
/// `-direction` from where it led return to the current position.
pub proof fn lemma_step_back_undoes_step(items: Seq<MenuItem>, order: Seq<usize>, id: Seq<char>, direction: int)
    requires
        is_angle_order(items, order),
        distinct_ids(items, order),
        position_of(items, order, id) is Some,
    ensures
        ({
            let there = next_position(items, order, Some(id), direction);
            next_position(items, order, Some(items[order[there] as int].id@), -direction) == position_of(items, order, id)->0
        }),
{
    lemma_position_bound(items, order, id);
    let n = order.len() as int;
    let p = position_of(items, order, id)->0;
    let there = next_position(items, order, Some(id), direction);
    assert(there == (p + direction) % n);
    vstd::arithmetic::div_mod::lemma_fundamental_div_mod(p + direction, n);
    let q = (p + direction) / n;
    assert(0 <= there < n) by {
        vstd::arithmetic::div_mod::lemma_mod_bound(p + direction, n);
    }
    let id1 = items[order[there] as int].id@;
    assert forall|j: int| 0 <= j < there implies items[#[trigger] order[j] as int].id@ != id1 by {
        assert(items[order[j] as int].id@ != items[order[there] as int].id@);
    }
    lemma_position_first(items, order, id1, there);
    assert(there - direction == n * (-q) + p) by (nonlinear_arith)
        requires
            p + direction == n * q + there,
    ;
    vstd::arithmetic::div_mod::lemma_mod_multiples_vanish(-q, p, n);
    vstd::arithmetic::div_mod::lemma_small_mod(p as nat, n as nat);
}

/// `(p + direction)` reduced into `0..n`, the way `i32::rem_euclid` does.
fn wrap_index(p: usize, direction: i32, n: usize) -> (r: usize)
    requires
        0 < n <= 0x7fff_ffff,
        p < n,
    ensures
        r as int == (p + direction) % (n as int),
        r < n,
{
    let s: i64 = p as i64 + direction as i64;
    if s >= 0 {
        ((s as u64) % (n as u64)) as usize
    } else {
        let u: u64 = (-s) as u64;
        let t: u64 = u % (n as u64);
        proof {
            let ni = n as int;
            let q = (u as int) / ni;
            vstd::arithmetic::div_mod::lemma_fundamental_div_mod(u as int, ni);
            assert(u as int == ni * q + t as int);
            if t == 0 {
                assert(s as int == (-q) * ni + 0) by (nonlinear_arith)
                    requires
                        u as int == ni * q + t as int,
                        t == 0,
                        s as int == -(u as int),
                ;
                vstd::arithmetic::div_mod::lemma_fundamental_div_mod_converse(s as int, ni, -q, 0);
            } else {
                assert(s as int == (-q - 1) * ni + (ni - t)) by (nonlinear_arith)
                    requires
                        u as int == ni * q + t as int,
                        s as int == -(u as int),
                ;
                vstd::arithmetic::div_mod::lemma_fundamental_div_mod_converse(s as int, ni, -q - 1, ni - t);
            }
        }
        if t == 0 {
            0
        } else {
            n - (t as usize)
        }
    }
}

/// The first position in `order` whose item has the id `current`.
fn find_position(items: &Vec<MenuItem>, order: &Vec<usize>, current: &Option<String>) -> (r: Option<usize>)
    requires
        forall|k: int| 0 <= k < order@.len() ==> #[trigger] order@[k] < items@.len(),
    ensures
        r matches Some(p) ==> p < order@.len(),
        match r {
            Some(p) => current is Some && position_of(items@, order@, current->0@) == Some(p as int),
            None => current is None || position_of(items@, order@, current->0@) is None,
        },
{
    match current {
        Some(id) => {
            proof {
                assert(current->0 == *id);
            }
            let mut k: usize = 0;
            while k < order.len()
                invariant
                    k <= order@.len(),
                    forall|j: int| 0 <= j < order@.len() ==> #[trigger] order@[j] < items@.len(),
                    forall|j: int| 0 <= j < k ==> items@[#[trigger] order@[j] as int].id@ != id@,
                    current is Some,
                    current->0@ == id@,
                decreases order@.len() - k,
            {
                let hit = items[order[k]].id == *id;
                if hit {
                    proof {
                        assert(items@[order@[k as int] as int].id@ == id@);
                        lemma_position_first(items@, order@, id@, k as int);
                        assert(position_of(items@, order@, id@) == Some(k as int));
                        assert(current->0@ == id@);
                    }
                    return Some(k);
                }
                k = k + 1;
            }
            proof {
                lemma_position_none(items@, order@, id@);
            }
            None
        },
        None => None,
    }
}

/// Whether any item is enabled.
pub open spec fn has_enabled(items: Seq<MenuItem>) -> bool {
    exists|i: int| 0 <= i < items.len() && #[trigger] items[i].enabled
}

/// The text of an optional id.
pub open spec fn opt_text(o: Option<String>) -> Option<Seq<char>> {
    match o {
        Some(c) => Some(c@),
        None => None,
    }
}

/// A step of `direction` from `current` can be taken among `items` without
/// leaving the range of `i32`.
pub open spec fn selection_step_ok(items: Seq<MenuItem>, current: Option<Seq<char>>, direction: int) -> bool {
    &&& items.len() <= 0x7fff_ffff
    &&& forall|o: Seq<usize>| is_angle_order(items, o) ==> step_fits(items, o, current, direction)
}

/// `r` is the id selected by a step of `direction` from `current` among the
/// enabled items of `items` in angle order (`None` when none is enabled).
pub open spec fn selects_next(items: Seq<MenuItem>, current: Option<Seq<char>>, direction: int, r: Option<String>) -> bool {
    &&& r is None <==> !has_enabled(items)
    &&& r matches Some(id) ==> exists|o: Seq<usize>|
        is_angle_order(items, o) && #[trigger] o.len() > 0 && id@ == items[o[next_position(
            items,
            o,
            current,
            direction,
        )] as int].id@
}

/// `r` is the id of the first enabled item of `items` in angle order
/// (`None` when none is enabled).
pub open spec fn selects_first(items: Seq<MenuItem>, r: Option<String>) -> bool {
    &&& r is None <==> !has_enabled(items)
    &&& r matches Some(id) ==> exists|o: Seq<usize>|
        is_angle_order(items, o) && #[trigger] o.len() > 0 && id@ == items[o[0] as int].id@
}

/// `r` is the id of the first enabled item of `items` nearest by `distance_bits`
/// (`None` when none is enabled).
pub open spec fn selects_nearest(items: Seq<MenuItem>, distance_bits: Seq<u32>, r: Option<String>) -> bool {
    &&& r is None <==> !has_enabled(items)
    &&& r matches Some(id) ==> exists|i: int|
        is_first_nearest(items, distance_bits, i) && #[trigger] items[i].id@ == id@
}

/// `id` is the id of an enabled item of `items`.
pub open spec fn is_enabled_id(items: Seq<MenuItem>, id: Seq<char>) -> bool {
    exists|i: int| 0 <= i < items.len() && #[trigger] items[i].enabled && items[i].id@ == id
}

/// Keyboard and controller navigation never lands on a disabled item: what a
/// step, the first selection or the nearest selection picks is the id of an
/// enabled item, and nothing is picked only when no item is enabled.
pub proof fn lemma_selection_is_enabled(
    items: Seq<MenuItem>,
    current: Option<Seq<char>>,
    direction: int,
    distance_bits: Seq<u32>,
    next: Option<String>,
    first: Option<String>,
    nearest: Option<String>,
)
    ensures
        selects_next(items, current, direction, next) ==> match next {
            Some(id) => is_enabled_id(items, id@),
            None => !has_enabled(items),
        },
        selects_first(items, first) ==> match first {
            Some(id) => is_enabled_id(items, id@),
            None => !has_enabled(items),
        },
        selects_nearest(items, distance_bits, nearest) ==> match nearest {
            Some(id) => is_enabled_id(items, id@),
            None => !has_enabled(items),
        },
{
    if selects_next(items, current, direction, next) && next is Some {
        let id = next->0;
        let o = choose|o: Seq<usize>|
            is_angle_order(items, o) && #[trigger] o.len() > 0 && id@ == items[o[next_position(
                items,
                o,
                current,
                direction,
            )] as int].id@;
        let p = next_position(items, o, current, direction);
        assert(0 <= p < o.len());
        assert(o[p] < items.len() && items[o[p] as int].enabled);
    }
    if selects_first(items, first) && first is Some {
        let id = first->0;
        let o = choose|o: Seq<usize>| is_angle_order(items, o) && #[trigger] o.len() > 0 && id@ == items[o[0] as int].id@;
        assert(o[0] < items.len() && items[o[0] as int].enabled);
    }
    if selects_nearest(items, distance_bits, nearest) && nearest is Some {
        let id = nearest->0;
        let i = choose|i: int| is_first_nearest(items, distance_bits, i) && #[trigger] items[i].id@ == id@;
        assert(items[i].enabled);
    }
}

/// Computes the id selected after a step of `direction` (-1 counter-clockwise,
/// +1 clockwise) from `current` among the enabled items in angle order.
/// Without a current selection (or when it is not among them) the first item is chosen.
/// Returns `None` when no item is enabled.
pub fn next_selection(items: &Vec<MenuItem>, current: &Option<String>, direction: i32) -> (r: Option<String>)
    requires
        selection_step_ok(items@, opt_text(*current), direction as int),
    ensures
        selects_next(items@, opt_text(*current), direction as int, r),
{
    let order = angle_order(items);
    let ghost cur = opt_text(*current);
    if order.len() == 0 {
        proof {
            if has_enabled(items@) {
                let i = choose|i: int| 0 <= i < items@.len() && #[trigger] items@[i].enabled;
                assert(order@.contains(i as usize));
            }
        }
        return None;
    }
    let n = order.len();
    proof {
        assert(n <= items@.len()) by {
            lemma_order_len(items@, order@);
        }
    }
    let next = match find_position(items, &order, current) {
        Some(p) => {
            proof {
                assert(step_fits(items@, order@, cur, direction as int));
            }
            wrap_index(p, direction, n)
        },
        None => 0,
    };
    proof {
        assert(items@[order@[0] as int].enabled);
        assert(next as int == next_position(items@, order@, cur, direction as int));
    }
    Some(items[order[next]].id.clone())
}

/// Computes the id of the first enabled item in angle order (the smallest angle),
/// or `None` when no item is enabled.
pub fn first_selection(items: &Vec<MenuItem>) -> (r: Option<String>)
    ensures
        selects_first(items@, r),
{
    let order = angle_order(items);
    if order.len() == 0 {
        proof {
            if has_enabled(items@) {
                let i = choose|i: int| 0 <= i < items@.len() && #[trigger] items@[i].enabled;
                assert(order@.contains(i as usize));
            }
        }
        return None;
    }
    proof {
        assert(items@[order@[0] as int].enabled);
    }
    Some(items[order[0]].id.clone())
}

/// Item `i` is enabled, no enabled item is nearer, and every enabled item before it is farther.
pub open spec fn is_first_nearest(items: Seq<MenuItem>, distance_bits: Seq<u32>, i: int) -> bool {
    &&& 0 <= i < items.len()
    &&& items[i].enabled
    &&& forall|j: int|
        0 <= j < items.len() && #[trigger] items[j].enabled ==> total_order_key(distance_bits[i])
            <= total_order_key(distance_bits[j])
    &&& forall|j: int|
        0 <= j < i && #[trigger] items[j].enabled ==> total_order_key(distance_bits[i]) < total_order_key(
            distance_bits[j],
        )
}

/// The id of the enabled item with the smallest distance (compared as
/// `f32::total_cmp` compares the `f32` distances with these bits); the first
/// such item on a tie. `None` when no item is enabled.
pub fn nearest_enabled(items: &Vec<MenuItem>, distance_bits: &Vec<u32>) -> (r: Option<String>)
    requires
        distance_bits@.len() == items@.len(),
    ensures
        selects_nearest(items@, distance_bits@, r),
{
    let mut best: Option<usize> = None;
    let mut i: usize = 0;
    while i < items.len()
        invariant
            i <= items@.len(),
            distance_bits@.len() == items@.len(),
            match best {
                None => forall|j: int| 0 <= j < i ==> !(#[trigger] items@[j].enabled),
                Some(b) => b < i && items@[b as int].enabled && (forall|j: int|
                    0 <= j < i && #[trigger] items@[j].enabled ==> total_order_key(distance_bits@[b as int])
                        <= total_order_key(distance_bits@[j])) && (forall|j: int|
                    0 <= j < b && #[trigger] items@[j].enabled ==> total_order_key(distance_bits@[b as int])
                        < total_order_key(distance_bits@[j])),
            },
        decreases items@.len() - i,
    {
        if items[i].enabled {
            let k = total_order_key_of(distance_bits[i]);
            match best {
                None => {
                    best = Some(i);
                },
                Some(b) => {
                    if k < total_order_key_of(distance_bits[b]) {
                        best = Some(i);
                    }
                },
            }
        }
        i = i + 1;
    }
    match best {
        None => {
            proof {
                if has_enabled(items@) {
                    let j = choose|j: int| 0 <= j < items@.len() && #[trigger] items@[j].enabled;
                    assert(!items@[j].enabled);
                }
            }
            None
        },
        Some(b) => {
            let id = items[b].id.clone();
            proof {
                assert(is_first_nearest(items@, distance_bits@, b as int));
                assert(items@[b as int].id@ == id@);
            }
            Some(id)
        },
    }
}

} // verus!
