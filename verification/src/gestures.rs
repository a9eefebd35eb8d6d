//! What the overlay does on keyboard, controller, pinch, rotation and click
//! input. The caller measures the input (scales, angles, distances) and hands
//! in the outcome of each comparison; these functions decide what follows.

use vstd::prelude::*;
use crate::item::MenuItem;
use crate::overlay::{PieMenuOverlayWidgetImpl, PieMenuMessage, MessageView, messages};
use crate::selection::{selects_next, selects_first, selects_nearest, opt_text, selection_step_ok};
use crate::widget::PieMenuWidgetImpl;
use crate::controls::ring_of;
use crate::menu::is_item_walk;

verus! {

/// Every step of `direction` from the selection of the overlay's ring fits in `i32`.
pub open spec fn ring_step_ok(o: PieMenuOverlayWidgetImpl, direction: int) -> bool {
    match o.pie_menu_widget {
        Some(w) => forall|items: Seq<MenuItem>|
            #[trigger] w.has_active_ring(items) ==> selection_step_ok(items, opt_text(w.keyboard_selection), direction),
        None => true,
    }
}

/// `w` is `w0` with the keyboard selection set to `r`, or kept when `r` is `None`.
pub open spec fn selection_moved(w: PieMenuWidgetImpl, w0: PieMenuWidgetImpl, r: Option<String>) -> bool {
    &&& w.same_settings(w0)
    &&& w.menu_items == w0.menu_items
    &&& w.submenu_stack == w0.submenu_stack
    &&& w.keyboard_selection == match r {
        Some(id) => Some(id),
        None => w0.keyboard_selection,
    }
}

/// The rotation of the overlay's ring (the bits of an `f32`), `0` without a ring.
pub open spec fn previous_rotation_bits(o: PieMenuOverlayWidgetImpl) -> u32 {
    match o.pie_menu_widget {
        Some(w) => w.rotation_bits,
        None => 0u32,
    }
}

/// `r` is the id of the first enabled item of the active ring of `w` nearest
/// as `distance_of` measures it.
pub open spec fn nearest_of<D: Fn(&MenuItem) -> u32>(w: PieMenuWidgetImpl, distance_of: D, r: Option<String>) -> bool {
    exists|items: Seq<MenuItem>, dist: Seq<u32>|
        #[trigger] w.has_active_ring(items) && dist.len() == items.len() && (forall|i: int|
            0 <= i < items.len() ==> call_ensures(distance_of, (&items[i],), #[trigger] dist[i])) && #[trigger] selects_nearest(
            items,
            dist,
            r,
        )
}

/// `i` is the index of the first enabled item of `items` that `hit` reported
/// hit (`items.len()` when there is none); disabled items are not asked.
pub open spec fn first_hit_at<H: Fn(&MenuItem) -> bool>(items: Seq<MenuItem>, hit: H, i: int) -> bool {
    &&& 0 <= i <= items.len()
    &&& forall|j: int| 0 <= j < i && #[trigger] items[j].enabled ==> call_ensures(hit, (&items[j],), false)
    &&& i < items.len() ==> items[i].enabled && call_ensures(hit, (&items[i],), true)
}

/// Finds the first enabled item of `items` that `hit` reports hit.
pub fn first_hit<H: Fn(&MenuItem) -> bool>(items: &Vec<MenuItem>, hit: &H) -> (i: usize)
    requires
        forall|x: &MenuItem| call_requires(*hit, (x,)),
    ensures
        first_hit_at(items@, *hit, i as int),
{
    let mut i: usize = 0;
    while i < items.len()
        invariant
            i <= items@.len(),
            forall|x: &MenuItem| call_requires(*hit, (x,)),
            forall|j: int| 0 <= j < i && #[trigger] items@[j].enabled ==> call_ensures(*hit, (&items@[j],), false),
        decreases items@.len() - i,
    {
        if items[i].enabled {
            let h = hit(&items[i]);
            if h {
                return i;
            }
        }
        i = i + 1;
    }
    i
}

impl PieMenuOverlayWidgetImpl {
    /// Cycles the ring's keyboard selection by `direction` (-1 counter-clockwise,
    /// +1 clockwise); see [`PieMenuWidgetImpl::cycle_selection`].
    pub fn cycle_selection(&mut self, direction: i32)
        requires
            ring_step_ok(*old(self), direction as int),
        ensures
            old(self).pie_menu_widget is None ==> *final(self) == *old(self),
            old(self).pie_menu_widget is Some ==> final(self).same_but_ring(*old(self)) && final(self).pie_menu_widget is Some
                && exists|items: Seq<MenuItem>, r: Option<String>|
                #[trigger] ring_of(*old(self)).has_active_ring(items) && #[trigger] selects_next(
                    items,
                    opt_text(ring_of(*old(self)).keyboard_selection),
                    direction as int,
                    r,
                ) && selection_moved(ring_of(*final(self)), ring_of(*old(self)), r),
    {
        let taken = self.pie_menu_widget.take();
        match taken {
            None => {},
            Some(mut w) => {
                w.cycle_selection(direction);
                self.pie_menu_widget = Some(w);
            },
        }
    }

    /// Selects the ring's first enabled item in angle order; see
    /// [`PieMenuWidgetImpl::select_first_item`].
    pub fn select_first_item(&mut self)
        ensures
            old(self).pie_menu_widget is None ==> *final(self) == *old(self),
            old(self).pie_menu_widget is Some ==> final(self).same_but_ring(*old(self)) && final(self).pie_menu_widget is Some
                && exists|items: Seq<MenuItem>, r: Option<String>|
                #[trigger] ring_of(*old(self)).has_active_ring(items) && #[trigger] selects_first(items, r)
                    && selection_moved(ring_of(*final(self)), ring_of(*old(self)), r),
    {
        let taken = self.pie_menu_widget.take();
        match taken {
            None => {},
            Some(mut w) => {
                w.select_first_item();
                self.pie_menu_widget = Some(w);
            },
        }
    }

    /// The id of the ring's enabled item nearest as `distance_of` measures it
    /// (`None` without a ring); see [`PieMenuWidgetImpl::find_nearest_item`].
    pub fn find_nearest_item<D: Fn(&MenuItem) -> u32>(&self, distance_of: &D) -> (r: Option<String>)
        requires
            forall|x: &MenuItem| call_requires(*distance_of, (x,)),
        ensures
            self.pie_menu_widget is None ==> r is None,
            self.pie_menu_widget is Some ==> nearest_of(ring_of(*self), *distance_of, r),
    {
        match &self.pie_menu_widget {
            None => None,
            Some(w) => w.find_nearest_item(distance_of),
        }
    }

    /// Sets the ring's keyboard selection (nothing happens without a ring).
    pub fn set_keyboard_selection(&mut self, id: String)
        ensures
            old(self).pie_menu_widget is None ==> *final(self) == *old(self),
            old(self).pie_menu_widget is Some ==> final(self).same_but_ring(*old(self)) && final(self).pie_menu_widget
                == Some(PieMenuWidgetImpl { keyboard_selection: Some(id), ..ring_of(*old(self)) }),
    {
        let taken = self.pie_menu_widget.take();
        match taken {
            None => {},
            Some(mut w) => {
                w.set_keyboard_selection(id);
                self.pie_menu_widget = Some(w);
            },
        }
    }

    /// While the menu is open, selects the ring's enabled item nearest as
    /// `distance_of` measures it (the direction of the right stick).
    pub fn select_nearest_item<D: Fn(&MenuItem) -> u32>(&mut self, distance_of: &D)
        requires
            forall|x: &MenuItem| call_requires(*distance_of, (x,)),
        ensures
            !old(self).visible || old(self).pie_menu_widget is None ==> *final(self) == *old(self),
            old(self).visible && old(self).pie_menu_widget is Some ==> final(self).same_but_ring(*old(self))
                && final(self).pie_menu_widget is Some && exists|r: Option<String>|
                #[trigger] nearest_of(ring_of(*old(self)), *distance_of, r) && selection_moved(
                    ring_of(*final(self)),
                    ring_of(*old(self)),
                    r,
                ),
    {
        if !self.visible {
            return;
        }
        let nearest = self.find_nearest_item(distance_of);
        let ghost r = nearest;
        match nearest {
            Some(id) => {
                self.set_keyboard_selection(id);
            },
            None => {},
        }
        proof {
            if old(self).pie_menu_widget is Some {
                assert(nearest_of(ring_of(*old(self)), *distance_of, r));
            }
        }
    }

    /// A pinch changed its scale: when it rose above the activation threshold
    /// with the menu closed, the menu is shown; when it fell below the
    /// deactivation threshold with the menu open, it is hidden. Returns whether
    /// the gesture was claimed.
    pub fn zoom_scale_changed(&mut self, above_activation: bool, below_deactivation: bool) -> (claimed: bool)
        ensures
            claimed == ((above_activation && !old(self).visible) || (below_deactivation && old(self).visible)),
            !claimed || old(self).pie_menu_widget is None ==> *final(self) == (PieMenuOverlayWidgetImpl {
                is_zooming: false,
                ..*old(self)
            }),
            above_activation && !old(self).visible && old(self).pie_menu_widget is Some ==> final(self).shown_from(
                (PieMenuOverlayWidgetImpl { is_zooming: false, ..*old(self) }),
            ),
            below_deactivation && old(self).visible && old(self).pie_menu_widget is Some ==> final(self).hidden_then(
                (PieMenuOverlayWidgetImpl { is_zooming: false, ..*old(self) }),
                Seq::empty(),
            ),
    {
        self.is_zooming = true;
        let is_open = self.visible;
        let mut claimed = false;
        if above_activation && !is_open {
            let _ = self.show_pie_menu();
            claimed = true;
        } else if below_deactivation && is_open {
            let _ = self.hide_pie_menu();
            claimed = true;
        }
        self.is_zooming = false;
        claimed
    }

    /// A rotation gesture began: while the menu is open, the ring's rotation is
    /// remembered as the gesture's origin.
    pub fn begin_rotation(&mut self)
        ensures
            !old(self).visible || old(self).pie_menu_widget is None ==> *final(self) == *old(self),
            old(self).visible && old(self).pie_menu_widget is Some ==> *final(self) == (PieMenuOverlayWidgetImpl {
                initial_rotation_bits: Some(ring_of(*old(self)).rotation_bits),
                rotation_origin_bits: ring_of(*old(self)).rotation_bits,
                is_rotating: true,
                ..*old(self)
            }),
    {
        if !self.visible {
            return;
        }
        let current = match &self.pie_menu_widget {
            None => {
                return;
            },
            Some(w) => w.rotation_bits,
        };
        self.rotation_origin_bits = current;
        self.initial_rotation_bits = Some(current);
        self.is_rotating = true;
    }

    /// The rotation gesture moved to the rounded rotation `rotation_bits`; when
    /// the menu is open and the caller found the change worth sending, the ring
    /// takes that rotation, `Rotate` is sent with the rotation delta that
    /// `delta_of` gives for the new rotation and the ring's rotation before the
    /// change, and the new rotation is remembered as the last one sent.
    /// Returns whether it was sent.
    pub fn rotation_changed<D: Fn(u32, u32) -> u32>(
        &mut self,
        rotation_bits: u32,
        should_send: bool,
        delta_of: &D,
    ) -> (sent: bool)
        requires
            forall|new_bits: u32, previous_bits: u32| call_requires(*delta_of, (new_bits, previous_bits)),
        ensures
            sent == (old(self).visible && should_send),
            !sent ==> *final(self) == *old(self),
            sent ==> exists|delta_bits: u32|
                #[trigger] call_ensures(*delta_of, (rotation_bits, previous_rotation_bits(*old(self))), delta_bits)
                    && messages(final(self).outbox@) == messages(old(self).outbox@).push(
                    MessageView::Rotate(delta_bits),
                ),
            sent ==> *final(self) == (PieMenuOverlayWidgetImpl {
                pie_menu_widget: match old(self).pie_menu_widget {
                    Some(w) => Some(PieMenuWidgetImpl { rotation_bits, ..w }),
                    None => None,
                },
                last_sent_rotation_bits: Some(rotation_bits),
                outbox: final(self).outbox,
                ..*old(self)
            }),
    {
        if !self.visible || !should_send {
            return false;
        }
        let previous = match &self.pie_menu_widget {
            Some(w) => w.rotation_bits,
            None => 0u32,
        };
        let delta_bits = delta_of(rotation_bits, previous);
        self.set_rotation(rotation_bits);
        self.send_message(PieMenuMessage::Rotate(delta_bits));
        self.last_sent_rotation_bits = Some(rotation_bits);
        true
    }

    /// The rotation gesture ended.
    pub fn end_rotation(&mut self)
        ensures
            *final(self) == (PieMenuOverlayWidgetImpl {
                is_rotating: false,
                initial_rotation_bits: None,
                last_sent_rotation_bits: None,
                ..*old(self)
            }),
    {
        self.is_rotating = false;
        self.initial_rotation_bits = None;
        self.last_sent_rotation_bits = None;
    }

    /// A click while the menu is open: in the centre it hides the menu;
    /// otherwise the first enabled top-level item (in the collection's order)
    /// that `hit` reports under the pointer sends its event, after hiding the
    /// menu when the item closes on click. Returns whether the click was claimed.
    pub fn click_pressed<H: Fn(&MenuItem) -> bool>(&mut self, in_center: bool, hit: &H) -> (claimed: bool)
        requires
            forall|x: &MenuItem| call_requires(*hit, (x,)),
        ensures
            !old(self).visible ==> !claimed && *final(self) == *old(self),
            old(self).visible && in_center ==> claimed,
            old(self).visible && in_center && old(self).pie_menu_widget is None ==> *final(self) == *old(self),
            old(self).visible && in_center && old(self).pie_menu_widget is Some ==> final(self).hidden_then(
                *old(self),
                Seq::empty(),
            ),
            old(self).visible && !in_center && old(self).pie_menu_widget is None ==> !claimed && *final(self) == *old(self),
            old(self).visible && !in_center && old(self).pie_menu_widget is Some ==> exists|items: Seq<MenuItem>, i: int|
                #[trigger] is_item_walk(ring_of(*old(self)).menu_items@, items) && #[trigger] first_hit_at(items, *hit, i) && (i
                    < items.len() ==> claimed) && (i < items.len() && items[i].close_on_click ==> final(self).hidden_then(
                    *old(self),
                    seq![MessageView::Event(items[i].event@)],
                )) && (i < items.len() && !items[i].close_on_click ==> final(self).only_sent(
                    *old(self),
                    MessageView::Event(items[i].event@),
                )) && (i == items.len() ==> !claimed && *final(self) == *old(self)),
    {
        if !self.visible {
            return false;
        }
        if in_center {
            let _ = self.hide_pie_menu();
            return true;
        }
        let items = match &self.pie_menu_widget {
            None => {
                return false;
            },
            Some(w) => w.menu_items.items(),
        };
        let i = first_hit(&items, hit);
        if i < items.len() {
            let event = items[i].event.clone();
            if items[i].close_on_click {
                let _ = self.hide_pie_menu();
                self.send_message(PieMenuMessage::Event(event));
                proof {
                    assert(messages(self.outbox@) =~= messages(old(self).outbox@).push(MessageView::Closed) + seq![
                        MessageView::Event(items@[i as int].event@),
                    ]);
                }
            } else {
                self.send_message(PieMenuMessage::Event(event));
            }
            true
        } else {
            false
        }
    }
}

} // verus!
