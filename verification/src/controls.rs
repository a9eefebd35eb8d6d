//! The overlay's menu item operations and settings, handed on to its ring.
//!
//! When the overlay has no ring, an operation that needs one reports
//! `MenuWidgetNotAvailable` (or `NotFound`, where its error has no other
//! variant for it), answers with the default, or does nothing.

use vstd::prelude::*;
use crate::item::{MenuItem, ItemView, opt_view};
use crate::menu::{is_zero_radius, all_clear_of, is_overlap_error, same_but_angles, plan_layout, keeps_fixed, layout_overlap};
use crate::error::{AddMenuItemError, RemoveMenuItemError, SetMenuItemEnabledError, UpdateMenuItemError};
use crate::overlay::PieMenuOverlayWidgetImpl;
use crate::widget::{PieMenuWidgetImpl, DEFAULT_PIE_MENU_RADIUS_BITS, DEFAULT_PIE_MENU_CENTER_RADIUS_BITS};

verus! {

/// The ring of the overlay (meaningful only when it has one).
pub open spec fn ring_of(o: PieMenuOverlayWidgetImpl) -> PieMenuWidgetImpl {
    o.pie_menu_widget->0
}

/// `w` is `w0` with at most its items changed.
pub open spec fn only_items_changed(w: PieMenuWidgetImpl, w0: PieMenuWidgetImpl) -> bool {
    &&& w.same_settings(w0)
    &&& w.keyboard_selection == w0.keyboard_selection
    &&& w.submenu_stack == w0.submenu_stack
}

/// `w` is `w0` after adding `item` with the overlap test `overlaps`, with result `r`.
pub open spec fn item_added<O: Fn(&MenuItem, &MenuItem, u32) -> bool>(
    w0: PieMenuWidgetImpl,
    w: PieMenuWidgetImpl,
    item: ItemView,
    overlaps: O,
    r: Result<(), AddMenuItemError>,
) -> bool {
    let inserted = w0.menu_items@.insert(item.id, item);
    &&& only_items_changed(w, w0)
    &&& r is Ok ==> w.menu_items@ == inserted
    &&& r is Err ==> w.menu_items@ == w0.menu_items@
    &&& is_zero_radius(w0.radius_bits) ==> r is Ok
    &&& r is Ok && !is_zero_radius(w0.radius_bits) ==> all_clear_of(inserted, overlaps, item, w0.radius_bits)
    &&& r matches Err(e) ==> !is_zero_radius(w0.radius_bits) && is_overlap_error(inserted, overlaps, item, w0.radius_bits, e)
}

/// `w` is `w0` after adding `item` with redistribution by `plan` and the
/// overlap test `overlaps`, with result `r`.
pub open spec fn item_added_auto<P: Fn(&Vec<MenuItem>) -> Vec<(String, u32)>, O: Fn(&MenuItem, &MenuItem, u32) -> bool>(
    w0: PieMenuWidgetImpl,
    w: PieMenuWidgetImpl,
    item: ItemView,
    plan: P,
    overlaps: O,
    r: Result<(), AddMenuItemError>,
) -> bool {
    let inserted = w0.menu_items@.insert(item.id, item);
    &&& only_items_changed(w, w0)
    &&& r is Err ==> w.menu_items@ == w0.menu_items@
    &&& r is Ok ==> plan_layout(inserted, plan, w.menu_items@)
    &&& r is Ok ==> same_but_angles(inserted, w.menu_items@)
    &&& r is Ok ==> keeps_fixed(inserted, w.menu_items@)
    &&& is_zero_radius(w0.radius_bits) ==> r is Ok
    &&& r is Ok && !is_zero_radius(w0.radius_bits) ==> forall|k: Seq<char>|
        #[trigger] w.menu_items@.contains_key(k) ==> all_clear_of(w.menu_items@, overlaps, w.menu_items@[k], w0.radius_bits)
    &&& r matches Err(e) ==> !is_zero_radius(w0.radius_bits) && exists|t: Map<Seq<char>, ItemView>|
        #[trigger] plan_layout(inserted, plan, t) && layout_overlap(t, overlaps, w0.radius_bits, e)
}

/// `w` is `w0` after replacing the item with the id of `item` with the
/// overlap test `overlaps`, with result `r`.
pub open spec fn item_updated<O: Fn(&MenuItem, &MenuItem, u32) -> bool>(
    w0: PieMenuWidgetImpl,
    w: PieMenuWidgetImpl,
    item: ItemView,
    overlaps: O,
    r: Result<(), UpdateMenuItemError>,
) -> bool {
    let inserted = w0.menu_items@.insert(item.id, item);
    &&& (r matches Err(UpdateMenuItemError::NotFound { .. })) == !w0.menu_items@.contains_key(item.id)
    &&& r is Err ==> w.menu_items@ == w0.menu_items@
    &&& r is Ok ==> w.menu_items@ == inserted
    &&& r is Ok && !is_zero_radius(w0.radius_bits) ==> all_clear_of(inserted, overlaps, item, w0.radius_bits)
    &&& r matches Err(UpdateMenuItemError::ItemOverlap { id, overlapping_with }) ==> !is_zero_radius(w0.radius_bits)
        && is_overlap_error(inserted, overlaps, item, w0.radius_bits, (AddMenuItemError::ItemOverlap { id, overlapping_with }))
}

/// The overlay's ring is now `w`; all else is unchanged.
pub open spec fn ring_set(o: PieMenuOverlayWidgetImpl, o0: PieMenuOverlayWidgetImpl, w: PieMenuWidgetImpl) -> bool {
    &&& o.same_but_ring(o0)
    &&& o.pie_menu_widget == Some(w)
}

impl PieMenuOverlayWidgetImpl {
    /// Adds a menu item to the ring (see [`PieMenuWidgetImpl::add_menu_item`]).
    pub fn add_menu_item<O: Fn(&MenuItem, &MenuItem, u32) -> bool>(&mut self, menu_item: MenuItem, overlaps: &O) -> (r:
        Result<(), AddMenuItemError>)
        requires
            forall|a: &MenuItem, b: &MenuItem, r: u32| call_requires(*overlaps, (a, b, r)),
        ensures
            final(self).same_but_ring(*old(self)),
            old(self).pie_menu_widget is None ==> *final(self) == *old(self) && r matches Err(
                AddMenuItemError::MenuWidgetNotAvailable,
            ),
            old(self).pie_menu_widget is Some ==> final(self).pie_menu_widget is Some && item_added(
                ring_of(*old(self)),
                ring_of(*final(self)),
                menu_item@,
                *overlaps,
                r,
            ),
    {
        let taken = self.pie_menu_widget.take();
        match taken {
            None => Err(AddMenuItemError::MenuWidgetNotAvailable),
            Some(mut w) => {
                let r = w.add_menu_item(menu_item, overlaps);
                self.pie_menu_widget = Some(w);
                r
            },
        }
    }

    /// Adds a menu item to the ring with angle redistribution (see
    /// [`PieMenuWidgetImpl::add_menu_item_auto`]).
    pub fn add_menu_item_auto<P: Fn(&Vec<MenuItem>) -> Vec<(String, u32)>, O: Fn(&MenuItem, &MenuItem, u32) -> bool>(
        &mut self,
        menu_item: MenuItem,
        plan: &P,
        overlaps: &O,
    ) -> (r: Result<(), AddMenuItemError>)
        requires
            forall|v: &Vec<MenuItem>| call_requires(*plan, (v,)),
            forall|a: &MenuItem, b: &MenuItem, r: u32| call_requires(*overlaps, (a, b, r)),
        ensures
            final(self).same_but_ring(*old(self)),
            old(self).pie_menu_widget is None ==> *final(self) == *old(self) && r matches Err(
                AddMenuItemError::MenuWidgetNotAvailable,
            ),
            old(self).pie_menu_widget is Some ==> final(self).pie_menu_widget is Some && item_added_auto(
                ring_of(*old(self)),
                ring_of(*final(self)),
                menu_item@,
                *plan,
                *overlaps,
                r,
            ),
    {
        let taken = self.pie_menu_widget.take();
        match taken {
            None => Err(AddMenuItemError::MenuWidgetNotAvailable),
            Some(mut w) => {
                let r = w.add_menu_item_auto(menu_item, plan, overlaps);
                self.pie_menu_widget = Some(w);
                r
            },
        }
    }

    /// Removes the ring's item stored under `id` (if any).
    pub fn remove_menu_item(&mut self, id: &str) -> (r: Result<(), RemoveMenuItemError>)
        ensures
            final(self).same_but_ring(*old(self)),
            old(self).pie_menu_widget is None ==> *final(self) == *old(self) && r matches Err(
                RemoveMenuItemError::MenuWidgetNotAvailable,
            ),
            old(self).pie_menu_widget is Some ==> r is Ok && final(self).pie_menu_widget is Some && only_items_changed(
                ring_of(*final(self)),
                ring_of(*old(self)),
            ) && ring_of(*final(self)).menu_items@ == ring_of(*old(self)).menu_items@.remove(id@),
    {
        let taken = self.pie_menu_widget.take();
        match taken {
            None => Err(RemoveMenuItemError::MenuWidgetNotAvailable),
            Some(mut w) => {
                let r = w.remove_menu_item(id);
                self.pie_menu_widget = Some(w);
                r
            },
        }
    }

    /// Removes all items of the ring (nothing happens without a ring).
    pub fn remove_all_menu_items(&mut self)
        ensures
            final(self).same_but_ring(*old(self)),
            old(self).pie_menu_widget is None ==> *final(self) == *old(self),
            old(self).pie_menu_widget is Some ==> final(self).pie_menu_widget is Some && only_items_changed(
                ring_of(*final(self)),
                ring_of(*old(self)),
            ) && ring_of(*final(self)).menu_items@ == Map::<Seq<char>, ItemView>::empty(),
    {
        let taken = self.pie_menu_widget.take();
        match taken {
            None => {},
            Some(mut w) => {
                w.remove_all_menu_items();
                self.pie_menu_widget = Some(w);
            },
        }
    }

    /// The number of items on the ring (0 without a ring).
    pub fn menu_item_count(&self) -> (n: usize)
        ensures
            self.pie_menu_widget is None ==> n == 0,
            self.pie_menu_widget is Some ==> n == ring_of(*self).menu_items@.len(),
    {
        match &self.pie_menu_widget {
            None => 0,
            Some(w) => w.menu_item_count(),
        }
    }

    /// Sets the enabled state of the ring's item stored under `id`.
    pub fn set_menu_item_enabled(&mut self, id: &str, enabled: bool) -> (r: Result<(), SetMenuItemEnabledError>)
        ensures
            final(self).same_but_ring(*old(self)),
            r matches Err(SetMenuItemEnabledError::NotFound { id: missing }) ==> missing@ == id@,
            r is Ok <==> old(self).pie_menu_widget is Some && ring_of(*old(self)).menu_items@.contains_key(id@),
            r is Err ==> *final(self) == *old(self),
            r is Ok ==> final(self).pie_menu_widget is Some && only_items_changed(ring_of(*final(self)), ring_of(*old(self)))
                && ring_of(*final(self)).menu_items@ == ring_of(*old(self)).menu_items@.insert(
                id@,
                ItemView { enabled, ..ring_of(*old(self)).menu_items@[id@] },
            ),
    {
        let taken = self.pie_menu_widget.take();
        match taken {
            None => Err(SetMenuItemEnabledError::NotFound { id: id.to_owned() }),
            Some(mut w) => {
                let r = w.set_menu_item_enabled(id, enabled);
                self.pie_menu_widget = Some(w);
                r
            },
        }
    }

    /// A copy of the ring's item stored under `id` (`None` without a ring).
    pub fn get_menu_item(&self, id: &str) -> (r: Option<MenuItem>)
        ensures
            opt_view(r) == match self.pie_menu_widget {
                Some(w) => if w.menu_items@.contains_key(id@) {
                    Some(w.menu_items@[id@])
                } else {
                    None
                },
                None => None,
            },
    {
        match &self.pie_menu_widget {
            None => None,
            Some(w) => w.get_menu_item(id),
        }
    }

    /// Replaces a ring item by one with the same id (see
    /// [`PieMenuWidgetImpl::update_menu_item`]); without a ring the item is not found.
    pub fn update_menu_item<O: Fn(&MenuItem, &MenuItem, u32) -> bool>(&mut self, menu_item: MenuItem, overlaps: &O) -> (r:
        Result<(), UpdateMenuItemError>)
        requires
            forall|a: &MenuItem, b: &MenuItem, r: u32| call_requires(*overlaps, (a, b, r)),
        ensures
            final(self).same_but_ring(*old(self)),
            old(self).pie_menu_widget is None ==> *final(self) == *old(self) && r matches Err(
                UpdateMenuItemError::NotFound { .. },
            ),
            r matches Err(UpdateMenuItemError::NotFound { id }) ==> id@ == menu_item@.id,
            old(self).pie_menu_widget is Some ==> final(self).pie_menu_widget is Some && only_items_changed(
                ring_of(*final(self)),
                ring_of(*old(self)),
            ) && item_updated(ring_of(*old(self)), ring_of(*final(self)), menu_item@, *overlaps, r),
    {
        let taken = self.pie_menu_widget.take();
        match taken {
            None => Err(UpdateMenuItemError::NotFound { id: menu_item.id.clone() }),
            Some(mut w) => {
                let r = w.update_menu_item(menu_item, overlaps);
                self.pie_menu_widget = Some(w);
                r
            },
        }
    }

    /// Redistributes the angles of the ring's items as `plan` assigns them
    /// (nothing happens without a ring).
    pub fn redistribute<P: Fn(&Vec<MenuItem>) -> Vec<(String, u32)>>(&mut self, plan: &P)
        requires
            forall|v: &Vec<MenuItem>| call_requires(*plan, (v,)),
        ensures
            final(self).same_but_ring(*old(self)),
            old(self).pie_menu_widget is None ==> *final(self) == *old(self),
            old(self).pie_menu_widget is Some ==> final(self).pie_menu_widget is Some && only_items_changed(
                ring_of(*final(self)),
                ring_of(*old(self)),
            ) && plan_layout(ring_of(*old(self)).menu_items@, *plan, ring_of(*final(self)).menu_items@) && keeps_fixed(
                ring_of(*old(self)).menu_items@,
                ring_of(*final(self)).menu_items@,
            ),
    {
        let taken = self.pie_menu_widget.take();
        match taken {
            None => {},
            Some(mut w) => {
                w.redistribute(plan);
                self.pie_menu_widget = Some(w);
            },
        }
    }

    /// Sets the ring's rotation (nothing happens without a ring).
    pub fn set_rotation(&mut self, rotation_bits: u32)
        ensures
            old(self).pie_menu_widget is None ==> *final(self) == *old(self),
            old(self).pie_menu_widget is Some ==> ring_set(
                *final(self),
                *old(self),
                (PieMenuWidgetImpl { rotation_bits, ..ring_of(*old(self)) }),
            ),
    {
        let taken = self.pie_menu_widget.take();
        match taken {
            None => {},
            Some(mut w) => {
                w.set_rotation(rotation_bits);
                self.pie_menu_widget = Some(w);
            },
        }
    }

    /// Sets whether the ring draws its markings (nothing happens without a ring).
    pub fn set_markings_enabled(&mut self, enabled: bool)
        ensures
            old(self).pie_menu_widget is None ==> *final(self) == *old(self),
            old(self).pie_menu_widget is Some ==> ring_set(
                *final(self),
                *old(self),
                (PieMenuWidgetImpl { markings_enabled: enabled, ..ring_of(*old(self)) }),
            ),
    {
        let taken = self.pie_menu_widget.take();
        match taken {
            None => {},
            Some(mut w) => {
                w.markings_enabled = enabled;
                self.pie_menu_widget = Some(w);
            },
        }
    }

    /// Whether the ring draws its markings (`true` without a ring).
    pub fn markings_enabled(&self) -> (b: bool)
        ensures
            b == match self.pie_menu_widget {
                Some(w) => w.markings_enabled,
                None => true,
            },
    {
        match &self.pie_menu_widget {
            Some(w) => w.markings_enabled,
            None => true,
        }
    }

    /// Sets the bits of the ring's radius (nothing happens without a ring).
    pub fn set_pie_menu_radius(&mut self, radius_bits: u32)
        ensures
            old(self).pie_menu_widget is None ==> *final(self) == *old(self),
            old(self).pie_menu_widget is Some ==> ring_set(
                *final(self),
                *old(self),
                (PieMenuWidgetImpl { radius_bits, ..ring_of(*old(self)) }),
            ),
    {
        let taken = self.pie_menu_widget.take();
        match taken {
            None => {},
            Some(mut w) => {
                w.radius_bits = radius_bits;
                self.pie_menu_widget = Some(w);
            },
        }
    }

    /// The bits of the ring's radius (the default radius without a ring).
    pub fn pie_menu_radius(&self) -> (r: u32)
        ensures
            r == match self.pie_menu_widget {
                Some(w) => w.radius_bits,
                None => DEFAULT_PIE_MENU_RADIUS_BITS,
            },
    {
        match &self.pie_menu_widget {
            Some(w) => w.radius_bits,
            None => DEFAULT_PIE_MENU_RADIUS_BITS,
        }
    }

    /// Sets the bits of the radius of the ring's centre (nothing happens without a ring).
    pub fn set_pie_menu_center_radius(&mut self, radius_bits: u32)
        ensures
            old(self).pie_menu_widget is None ==> *final(self) == *old(self),
            old(self).pie_menu_widget is Some ==> ring_set(
                *final(self),
                *old(self),
                (PieMenuWidgetImpl { center_radius_bits: radius_bits, ..ring_of(*old(self)) }),
            ),
    {
        let taken = self.pie_menu_widget.take();
        match taken {
            None => {},
            Some(mut w) => {
                w.center_radius_bits = radius_bits;
                self.pie_menu_widget = Some(w);
            },
        }
    }

    /// The bits of the radius of the ring's centre (the default without a ring).
    pub fn pie_menu_center_radius(&self) -> (r: u32)
        ensures
            r == match self.pie_menu_widget {
                Some(w) => w.center_radius_bits,
                None => DEFAULT_PIE_MENU_CENTER_RADIUS_BITS,
            },
    {
        match &self.pie_menu_widget {
            Some(w) => w.center_radius_bits,
            None => DEFAULT_PIE_MENU_CENTER_RADIUS_BITS,
        }
    }

    /// Sets the bits of the step between ring levels, on the overlay and on its ring.
    pub fn set_submenu_radius_step(&mut self, step_bits: u32)
        ensures
            *final(self) == (PieMenuOverlayWidgetImpl {
                submenu_radius_step_bits: step_bits,
                pie_menu_widget: match old(self).pie_menu_widget {
                    Some(w) => Some(PieMenuWidgetImpl { submenu_radius_step_bits: step_bits, ..w }),
                    None => None,
                },
                ..*old(self)
            }),
    {
        self.submenu_radius_step_bits = step_bits;
        let taken = self.pie_menu_widget.take();
        match taken {
            None => {},
            Some(mut w) => {
                w.submenu_radius_step_bits = step_bits;
                self.pie_menu_widget = Some(w);
            },
        }
    }

    /// Sets the bits of the pinch scale (`f64`) above which the menu opens.
    pub fn set_activation_threshold(&mut self, threshold_bits: u64)
        ensures
            *final(self) == (PieMenuOverlayWidgetImpl { activation_threshold_bits: threshold_bits, ..*old(self) }),
    {
        self.activation_threshold_bits = threshold_bits;
    }

    /// The bits of the pinch scale (`f64`) above which the menu opens.
    pub fn activation_threshold(&self) -> (r: u64)
        ensures
            r == self.activation_threshold_bits,
    {
        self.activation_threshold_bits
    }

    /// Sets the bits of the pinch scale (`f64`) below which the menu closes.
    pub fn set_deactivation_threshold(&mut self, threshold_bits: u64)
        ensures
            *final(self) == (PieMenuOverlayWidgetImpl { deactivation_threshold_bits: threshold_bits, ..*old(self) }),
    {
        self.deactivation_threshold_bits = threshold_bits;
    }

    /// The bits of the pinch scale (`f64`) below which the menu closes.
    pub fn deactivation_threshold(&self) -> (r: u64)
        ensures
            r == self.deactivation_threshold_bits,
    {
        self.deactivation_threshold_bits
    }

    /// Sets whether the rotation gesture is active while the menu is open.
    pub fn set_rotation_gesture_enabled(&mut self, enabled: bool)
        ensures
            *final(self) == (PieMenuOverlayWidgetImpl { rotation_gesture_enabled: enabled, ..*old(self) }),
    {
        self.rotation_gesture_enabled = enabled;
    }

    /// Whether the rotation gesture is active while the menu is open.
    pub fn rotation_gesture_enabled(&self) -> (b: bool)
        ensures
            b == self.rotation_gesture_enabled,
    {
        self.rotation_gesture_enabled
    }

    /// Sets the bits of the scroll rotation sensitivity (`f64`).
    pub fn set_scroll_rotation_step(&mut self, sensitivity_bits: u64)
        ensures
            *final(self) == (PieMenuOverlayWidgetImpl { scroll_rotation_step_bits: sensitivity_bits, ..*old(self) }),
    {
        self.scroll_rotation_step_bits = sensitivity_bits;
    }

    /// The bits of the scroll rotation sensitivity (`f64`).
    pub fn scroll_rotation_step(&self) -> (r: u64)
        ensures
            r == self.scroll_rotation_step_bits,
    {
        self.scroll_rotation_step_bits
    }

    /// Stores the bits of the left stick's x-axis value (`f32`, in `[-1, 1]`),
    /// which the ring turns by on each frame.
    pub fn handle_left_stick_x(&mut self, x_bits: u32)
        ensures
            *final(self) == (PieMenuOverlayWidgetImpl { left_stick_x_bits: x_bits, ..*old(self) }),
    {
        self.left_stick_x_bits = x_bits;
    }
}

} // verus!
