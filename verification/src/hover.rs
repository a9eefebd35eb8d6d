//! Which item of the active ring the pointer hovers.
//!
//! The caller measures where the pointer is: whether it lies on the active
//! ring at all, and how far (in degrees, as an `f64`) each item's angle is
//! from the pointer's angle. The item hovered is the first enabled one at the
//! least distance.

use vstd::prelude::*;
use crate::item::MenuItem;
use crate::widget::PieMenuWidgetImpl;

verus! {

/// The unsigned key under which `f64::total_cmp` orders the `f64` with these bits.
pub open spec fn total_order_key64(bits: u64) -> u64 {
    if bits >= 0x8000_0000_0000_0000 {
        (0xffff_ffff_ffff_ffffu64 - bits) as u64
    } else {
        (bits + 0x8000_0000_0000_0000u64) as u64
    }
}

fn total_order_key64_of(bits: u64) -> (k: u64)
    ensures
        k == total_order_key64(bits),
{
    if bits >= 0x8000_0000_0000_0000 {
        0xffff_ffff_ffff_ffffu64 - bits
    } else {
        bits + 0x8000_0000_0000_0000u64
    }
}

/// Item `i` is a candidate: it is enabled and its distance could be measured.
pub open spec fn is_candidate(items: Seq<MenuItem>, distances: Seq<Option<u64>>, i: int) -> bool {
    items[i].enabled && distances[i] is Some
}

/// `r` is the index (as an `i32`) of the first candidate at the least distance,
/// or -1 when there is no candidate.
pub open spec fn is_hover_choice(items: Seq<MenuItem>, distances: Seq<Option<u64>>, r: i32) -> bool {
    ||| r == -1 && forall|j: int| 0 <= j < items.len() ==> !#[trigger] is_candidate(items, distances, j)
    ||| exists|i: int|
        #![trigger is_candidate(items, distances, i)]
        0 <= i < items.len() && r == i as i32 && is_candidate(items, distances, i) && (forall|j: int|
            0 <= j < items.len() && #[trigger] is_candidate(items, distances, j) ==> total_order_key64(distances[i]->0)
                <= total_order_key64(distances[j]->0)) && (forall|j: int|
            0 <= j < i && #[trigger] is_candidate(items, distances, j) ==> total_order_key64(distances[i]->0)
                < total_order_key64(distances[j]->0))
}

/// The index of the first enabled item at the least distance, where
/// `distances[i]` holds the bits of item `i`'s `f64` distance (`None` where
/// it does not compare, for instance a NaN); -1 when there is none.
pub fn hover_index(items: &Vec<MenuItem>, distances: &Vec<Option<u64>>) -> (r: i32)
    requires
        distances@.len() == items@.len(),
    ensures
        is_hover_choice(items@, distances@, r),
{
    let mut best: Option<usize> = None;
    let mut best_key: u64 = 0;
    let mut i: usize = 0;
    while i < items.len()
        invariant
            i <= items@.len(),
            distances@.len() == items@.len(),
            match best {
                None => forall|j: int| 0 <= j < i ==> !#[trigger] is_candidate(items@, distances@, j),
                Some(b) => {
                    &&& b < i
                    &&& is_candidate(items@, distances@, b as int)
                    &&& best_key == total_order_key64(distances@[b as int]->0)
                    &&& forall|j: int|
                        0 <= j < i && #[trigger] is_candidate(items@, distances@, j) ==> best_key <= total_order_key64(
                            distances@[j]->0,
                        )
                    &&& forall|j: int|
                        0 <= j < b && #[trigger] is_candidate(items@, distances@, j) ==> best_key < total_order_key64(
                            distances@[j]->0,
                        )
                },
            },
        decreases items@.len() - i,
    {
        if items[i].enabled {
            match distances[i] {
                Some(d) => {
                    let k = total_order_key64_of(d);
                    match best {
                        None => {
                            best = Some(i);
                            best_key = k;
                        },
                        Some(_) => {
                            if k < best_key {
                                best = Some(i);
                                best_key = k;
                            }
                        },
                    }
                },
                None => {},
            }
        }
        i = i + 1;
    }
    match best {
        None => -1,
        Some(b) => {
            proof {
                assert(is_candidate(items@, distances@, b as int));
            }
            #[verifier::truncate]
            (b as i32)
        },
    }
}

impl PieMenuWidgetImpl {
    /// Follows the pointer: off the active ring nothing is hovered; on it, the
    /// first enabled item of the active ring nearest by `distance_of` is
    /// (nothing changes while the active ring is empty). Returns whether the
    /// hovered item changed, which calls for a redraw.
    pub fn update_hover<D: Fn(&MenuItem) -> Option<u64>>(&mut self, on_active_ring: bool, distance_of: &D) -> (changed: bool)
        requires
            forall|x: &MenuItem| call_requires(*distance_of, (x,)),
        ensures
            changed == (final(self).hovered_item_index != old(self).hovered_item_index),
            *final(self) == (PieMenuWidgetImpl { hovered_item_index: final(self).hovered_item_index, ..*old(self) }),
            !on_active_ring ==> final(self).hovered_item_index == -1,
            on_active_ring ==> exists|items: Seq<MenuItem>|
                #[trigger] old(self).has_active_ring(items) && (items.len() == 0 ==> final(self).hovered_item_index
                    == old(self).hovered_item_index) && (items.len() > 0 ==> exists|dist: Seq<Option<u64>>|
                    dist.len() == items.len() && (forall|i: int|
                        0 <= i < items.len() ==> call_ensures(*distance_of, (&items[i],), #[trigger] dist[i]))
                        && #[trigger] is_hover_choice(items, dist, final(self).hovered_item_index)),
    {
        if !on_active_ring {
            return self.clear_hover();
        }
        let items = self.active_ring_items();
        if items.len() == 0 {
            return false;
        }
        let mut dist: Vec<Option<u64>> = Vec::new();
        let mut i: usize = 0;
        while i < items.len()
            invariant
                i <= items@.len(),
                dist@.len() == i,
                forall|x: &MenuItem| call_requires(*distance_of, (x,)),
                forall|j: int| 0 <= j < i ==> call_ensures(*distance_of, (&items@[j],), #[trigger] dist@[j]),
            decreases items@.len() - i,
        {
            let d = distance_of(&items[i]);
            dist.push(d);
            i = i + 1;
        }
        let index = hover_index(&items, &dist);
        if self.hovered_item_index != index {
            self.hovered_item_index = index;
            true
        } else {
            false
        }
    }

    /// The pointer left the ring: nothing is hovered any more. Returns whether
    /// that changed anything.
    pub fn clear_hover(&mut self) -> (changed: bool)
        ensures
            changed == (old(self).hovered_item_index != -1),
            *final(self) == (PieMenuWidgetImpl { hovered_item_index: -1i32, ..*old(self) }),
    {
        if self.hovered_item_index != -1 {
            self.hovered_item_index = -1;
            true
        } else {
            false
        }
    }
}

} // verus!
