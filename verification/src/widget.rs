//! The state behind the pie menu ring: its items, the ring geometry settings,
//! the keyboard selection and the stack of open submenus.
//!
//! Geometry that needs floating-point arithmetic (whether two items overlap
//! on the ring, how far an item is from a direction, where flexible items go)
//! is measured by functions handed in by the caller; this state decides what
//! to do with their answers.

use vstd::prelude::*;
use vstd::string::*;
use crate::item::{MenuItem, ItemView, find_view, items_view, opt_view, same_id};
use crate::menu::{
    Menu, is_item_walk, is_walk, lists_items, is_zero_radius, all_clear_of, is_overlap_error, same_but_angles,
    with_angles, assignment_views, set_angle, lemma_with_angles_distinct, lemma_with_angles_same_but_angles, plan_layout,
    keeps_fixed, layout_overlap,
};
use crate::error::{AddMenuItemError, RemoveMenuItemError, SetMenuItemEnabledError, UpdateMenuItemError};
use crate::selection::{
    next_selection, first_selection, nearest_enabled, selects_next, selects_first, selects_nearest, opt_text,
    selection_step_ok,
};

verus! {

/// Bits of the default ring radius (160.0 pixels).
pub const DEFAULT_PIE_MENU_RADIUS_BITS: u32 = 0x4320_0000u32;

/// Bits of the default radius of the transparent centre (64.0 pixels).
pub const DEFAULT_PIE_MENU_CENTER_RADIUS_BITS: u32 = 0x4280_0000u32;

/// Bits of the default step between consecutive ring levels (80.0 pixels).
pub const DEFAULT_SUBMENU_RADIUS_STEP_BITS: u32 = 0x42a0_0000u32;

/// The state of the pie menu ring.
pub struct PieMenuWidgetImpl {
    /// The menu items displayed on the main ring.
    pub menu_items: Menu,
    /// Bits of the rotation of the ring in degrees.
    pub rotation_bits: u32,
    /// Bits of the radius of the main ring.
    pub radius_bits: u32,
    /// Bits of the radius of the transparent centre.
    pub center_radius_bits: u32,
    /// Index of the currently hovered menu item (-1 if none).
    pub hovered_item_index: i32,
    /// Whether inner and outer ring markings are drawn.
    pub markings_enabled: bool,
    /// Id of the currently keyboard-selected item, if any.
    pub keyboard_selection: Option<String>,
    /// Ids of the opened submenus, innermost last. Empty means the main ring is active.
    pub submenu_stack: Vec<String>,
    /// Bits of the step width between consecutive ring levels.
    pub submenu_radius_step_bits: u32,
}

/// The texts of a stack of ids.
pub open spec fn stack_text(s: Seq<String>) -> Seq<Seq<char>> {
    s.map_values(|x: String| x@)
}

/// The submenu of an item value, or nothing.
pub open spec fn submenu_or_empty(p: ItemView) -> Seq<ItemView> {
    match p.submenu {
        Some(s) => s,
        None => Seq::empty(),
    }
}

/// `items` are the items of the active ring: every top-level item when no
/// submenu is open; otherwise the submenu of the innermost open parent as
/// found in the subtree of one of the top-level items (or nothing when it is
/// found nowhere).
pub open spec fn is_active_ring(m: Map<Seq<char>, ItemView>, stack: Seq<Seq<char>>, items: Seq<MenuItem>) -> bool {
    if stack.len() == 0 {
        is_item_walk(m, items)
    } else {
        ||| exists|k: Seq<char>|
            #[trigger] m.contains_key(k) && find_view(m[k], stack.last()) is Some && items_view(items)
                == submenu_or_empty(find_view(m[k], stack.last())->0)
        ||| (forall|k: Seq<char>| #[trigger] m.contains_key(k) ==> find_view(m[k], stack.last()) is None) && items.len()
            == 0
    }
}

/// With submenus open, the active ring is the submenu of the innermost open
/// parent, the last id on the stack: wherever in the tree that parent is found
/// (the same item each time), the ring holds exactly its submenu.
pub proof fn lemma_active_ring_is_innermost_submenu(
    w: PieMenuWidgetImpl,
    items: Seq<MenuItem>,
    outer: Seq<String>,
    parent: String,
    key: Seq<char>,
    p: ItemView,
)
    requires
        w.has_active_ring(items),
        w.submenu_stack@ == outer.push(parent),
        w.menu_items@.contains_key(key),
        find_view(w.menu_items@[key], parent@) == Some(p),
        forall|k: Seq<char>|
            #[trigger] w.menu_items@.contains_key(k) && find_view(w.menu_items@[k], parent@) is Some ==> find_view(
                w.menu_items@[k],
                parent@,
            ) == Some(p),
    ensures
        items_view(items) == submenu_or_empty(p),
{
    let stack = stack_text(w.submenu_stack@);
    assert(stack.len() == outer.len() + 1);
    assert(stack.last() == parent@);
    assert(!(forall|k: Seq<char>| #[trigger] w.menu_items@.contains_key(k) ==> find_view(w.menu_items@[k], stack.last()) is None));
}

/// With submenus open and the innermost open parent found nowhere in the
/// tree, the active ring is empty.
pub proof fn lemma_active_ring_empty_without_parent(w: PieMenuWidgetImpl, items: Seq<MenuItem>, outer: Seq<String>, parent: String)
    requires
        w.has_active_ring(items),
        w.submenu_stack@ == outer.push(parent),
        forall|k: Seq<char>| #[trigger] w.menu_items@.contains_key(k) ==> find_view(w.menu_items@[k], parent@) is None,
    ensures
        items.len() == 0,
{
    let stack = stack_text(w.submenu_stack@);
    assert(stack.len() == outer.len() + 1);
    assert(stack.last() == parent@);
}

impl Default for PieMenuWidgetImpl {
    /// The state of a freshly built ring (see [`PieMenuWidgetImpl::new`]).
    fn default() -> (w: PieMenuWidgetImpl)
        ensures
            w.menu_items@ == Map::<Seq<char>, ItemView>::empty(),
            w.rotation_bits == 0,
            w.radius_bits == DEFAULT_PIE_MENU_RADIUS_BITS,
            w.center_radius_bits == DEFAULT_PIE_MENU_CENTER_RADIUS_BITS,
            w.hovered_item_index == -1,
            w.markings_enabled,
            w.keyboard_selection is None,
            w.submenu_stack@.len() == 0,
            w.submenu_radius_step_bits == DEFAULT_SUBMENU_RADIUS_STEP_BITS,
    {
        PieMenuWidgetImpl::new()
    }
}

impl PieMenuWidgetImpl {
    /// The settings that item and selection operations leave alone.
    pub open spec fn same_settings(self, other: PieMenuWidgetImpl) -> bool {
        &&& self.rotation_bits == other.rotation_bits
        &&& self.radius_bits == other.radius_bits
        &&& self.center_radius_bits == other.center_radius_bits
        &&& self.hovered_item_index == other.hovered_item_index
        &&& self.markings_enabled == other.markings_enabled
        &&& self.submenu_radius_step_bits == other.submenu_radius_step_bits
    }

    /// The active ring of this state is `items`.
    pub open spec fn has_active_ring(self, items: Seq<MenuItem>) -> bool {
        is_active_ring(self.menu_items@, stack_text(self.submenu_stack@), items)
    }

    /// A state with no items, the default geometry, no selection and no open submenu.
    pub fn new() -> (w: PieMenuWidgetImpl)
        ensures
            w.menu_items@ == Map::<Seq<char>, ItemView>::empty(),
            w.rotation_bits == 0,
            w.radius_bits == DEFAULT_PIE_MENU_RADIUS_BITS,
            w.center_radius_bits == DEFAULT_PIE_MENU_CENTER_RADIUS_BITS,
            w.hovered_item_index == -1,
            w.markings_enabled,
            w.keyboard_selection is None,
            w.submenu_stack@.len() == 0,
            w.submenu_radius_step_bits == DEFAULT_SUBMENU_RADIUS_STEP_BITS,
    {
        PieMenuWidgetImpl {
            menu_items: Menu::new(),
            rotation_bits: 0,
            radius_bits: DEFAULT_PIE_MENU_RADIUS_BITS,
            center_radius_bits: DEFAULT_PIE_MENU_CENTER_RADIUS_BITS,
            hovered_item_index: -1,
            markings_enabled: true,
            keyboard_selection: None,
            submenu_stack: Vec::new(),
            submenu_radius_step_bits: DEFAULT_SUBMENU_RADIUS_STEP_BITS,
        }
    }

    /// Returns the current rotation bits.
    pub fn rotation(&self) -> (r: u32)
        ensures
            r == self.rotation_bits,
    {
        self.rotation_bits
    }

    /// Sets the rotation.
    pub fn set_rotation(&mut self, rotation_bits: u32)
        ensures
            *final(self) == (PieMenuWidgetImpl { rotation_bits, ..*old(self) }),
    {
        self.rotation_bits = rotation_bits;
    }

    /// Returns the items of the currently active ring.
    pub fn active_ring_items(&self) -> (r: Vec<MenuItem>)
        ensures
            self.has_active_ring(r@),
    {
        let n = self.submenu_stack.len();
        if n == 0 {
            return self.menu_items.items();
        }
        let parent = &self.submenu_stack[n - 1];
        proof {
            assert(stack_text(self.submenu_stack@).last() == parent@);
        }
        match self.menu_items.find_item_recursive(parent.as_str()) {
            Some(item) => match item.submenu {
                Some(v) => v,
                None => {
                    let r: Vec<MenuItem> = Vec::new();
                    proof {
                        assert(items_view(r@) =~= Seq::<ItemView>::empty());
                    }
                    r
                },
            },
            None => Vec::new(),
        }
    }

    /// Computes the next selection id when cycling by `direction` (-1 for CCW,
    /// +1 for CW) among the enabled items of the active ring in angle order.
    /// Returns `None` if the active ring has no enabled items.
    pub fn compute_next_selection(&self, direction: i32) -> (r: Option<String>)
        requires
            forall|items: Seq<MenuItem>|
                #[trigger] self.has_active_ring(items) ==> selection_step_ok(
                    items,
                    opt_text(self.keyboard_selection),
                    direction as int,
                ),
        ensures
            exists|items: Seq<MenuItem>|
                #[trigger] self.has_active_ring(items) && selects_next(
                    items,
                    opt_text(self.keyboard_selection),
                    direction as int,
                    r,
                ),
    {
        let items = self.active_ring_items();
        next_selection(&items, &self.keyboard_selection, direction)
    }

    /// Computes the first enabled item id of the active ring in angle order.
    pub fn compute_first_selection(&self) -> (r: Option<String>)
        ensures
            exists|items: Seq<MenuItem>| #[trigger] self.has_active_ring(items) && selects_first(items, r),
    {
        let items = self.active_ring_items();
        first_selection(&items)
    }

    /// Cycles the keyboard selection by `direction`; unchanged when nothing is enabled.
    pub fn cycle_selection(&mut self, direction: i32)
        requires
            forall|items: Seq<MenuItem>|
                #[trigger] old(self).has_active_ring(items) ==> selection_step_ok(
                    items,
                    opt_text(old(self).keyboard_selection),
                    direction as int,
                ),
        ensures
            exists|items: Seq<MenuItem>, r: Option<String>|
                #[trigger] old(self).has_active_ring(items) && #[trigger] selects_next(
                    items,
                    opt_text(old(self).keyboard_selection),
                    direction as int,
                    r,
                ) && final(self).keyboard_selection == (match r {
                    Some(id) => Some(id),
                    None => old(self).keyboard_selection,
                }),
            final(self).same_settings(*old(self)),
            final(self).menu_items == old(self).menu_items,
            final(self).submenu_stack == old(self).submenu_stack,
    {
        let next = self.compute_next_selection(direction);
        if let Some(id) = next {
            self.keyboard_selection = Some(id);
        }
    }

    /// Selects the first item (smallest angle); unchanged when nothing is enabled.
    pub fn select_first_item(&mut self)
        ensures
            exists|items: Seq<MenuItem>, r: Option<String>|
                #[trigger] old(self).has_active_ring(items) && #[trigger] selects_first(items, r)
                    && final(self).keyboard_selection == (match r {
                    Some(id) => Some(id),
                    None => old(self).keyboard_selection,
                }),
            final(self).same_settings(*old(self)),
            final(self).menu_items == old(self).menu_items,
            final(self).submenu_stack == old(self).submenu_stack,
    {
        let first = self.compute_first_selection();
        if let Some(id) = first {
            self.keyboard_selection = Some(id);
        }
    }

    /// Finds the enabled item of the active ring nearest to a direction, as
    /// measured by `distance_of` (the bits of an `f32` angular distance, compared
    /// as `f32::total_cmp` compares them); the first one on a tie.
    pub fn find_nearest_item<D: Fn(&MenuItem) -> u32>(&self, distance_of: &D) -> (r: Option<String>)
        requires
            forall|x: &MenuItem| call_requires(*distance_of, (x,)),
        ensures
            exists|items: Seq<MenuItem>, dist: Seq<u32>|
                #[trigger] self.has_active_ring(items) && dist.len() == items.len() && (forall|i: int|
                    0 <= i < items.len() ==> call_ensures(*distance_of, (&items[i],), #[trigger] dist[i]))
                    && #[trigger] selects_nearest(items, dist, r),
    {
        let items = self.active_ring_items();
        let mut dist: Vec<u32> = Vec::new();
        let mut i: usize = 0;
        while i < items.len()
            invariant
                i <= items@.len(),
                dist@.len() == i,
                forall|x: &MenuItem| call_requires(*distance_of, (x,)),
                forall|j: int| 0 <= j < i ==> call_ensures(*distance_of, (&items@[j],), #[trigger] dist@[j]),
            decreases items@.len() - i,
        {
            let d = distance_of(&items[i]);
            dist.push(d);
            i = i + 1;
        }
        nearest_enabled(&items, &dist)
    }

    /// Sets the keyboard selection to the given item id.
    pub fn set_keyboard_selection(&mut self, id: String)
        ensures
            *final(self) == (PieMenuWidgetImpl { keyboard_selection: Some(id), ..*old(self) }),
    {
        self.keyboard_selection = Some(id);
    }

    /// Returns the currently keyboard-selected item id, if any.
    pub fn keyboard_selection(&self) -> (r: Option<String>)
        ensures
            opt_text(r) == opt_text(self.keyboard_selection),
    {
        match &self.keyboard_selection {
            Some(s) => Some(s.clone()),
            None => None,
        }
    }

    /// Returns whether the item with the given id is the current keyboard selection.
    pub fn is_keyboard_selected(&self, id: &str) -> (r: bool)
        ensures
            r == (opt_text(self.keyboard_selection) == Some(id@)),
    {
        match &self.keyboard_selection {
            Some(s) => same_id(s, id),
            None => false,
        }
    }

    /// Sets the submenu navigation stack. An empty stack means the main ring is active.
    pub fn set_submenu_stack(&mut self, stack: Vec<String>)
        ensures
            *final(self) == (PieMenuWidgetImpl { submenu_stack: stack, ..*old(self) }),
    {
        self.submenu_stack = stack;
    }

    /// Adds a menu item (replacing one stored under the same id), then checks it
    /// against the other items on the ring with `overlaps`. On an overlap the
    /// menu is put back as it was (an item stored earlier under the same id
    /// included) and the overlap is reported.
    pub fn add_menu_item<O: Fn(&MenuItem, &MenuItem, u32) -> bool>(&mut self, menu_item: MenuItem, overlaps: &O) -> (r:
        Result<(), AddMenuItemError>)
        requires
            forall|a: &MenuItem, b: &MenuItem, r: u32| call_requires(*overlaps, (a, b, r)),
        ensures
            final(self).same_settings(*old(self)),
            final(self).keyboard_selection == old(self).keyboard_selection,
            final(self).submenu_stack == old(self).submenu_stack,
            r is Ok ==> final(self).menu_items@ == old(self).menu_items@.insert(menu_item@.id, menu_item@),
            r is Err ==> final(self).menu_items@ == old(self).menu_items@,
            is_zero_radius(old(self).radius_bits) ==> r is Ok,
            r is Ok && !is_zero_radius(old(self).radius_bits) ==> all_clear_of(
                old(self).menu_items@.insert(menu_item@.id, menu_item@),
                *overlaps,
                menu_item@,
                old(self).radius_bits,
            ),
            r matches Err(e) ==> !is_zero_radius(old(self).radius_bits) && is_overlap_error(
                old(self).menu_items@.insert(menu_item@.id, menu_item@),
                *overlaps,
                menu_item@,
                old(self).radius_bits,
                e,
            ),
    {
        let previous = self.menu_items.get(menu_item.id.as_str());
        let key = menu_item.id.clone();
        let stored = menu_item.copy();
        self.menu_items.insert(key, stored);
        match self.menu_items.validate_no_overlap(&menu_item, self.radius_bits, overlaps) {
            Ok(()) => Ok(()),
            Err(error) => {
                match previous {
                    Some(p) => {
                        self.menu_items.insert(menu_item.id.clone(), p);
                    },
                    None => {
                        self.menu_items.remove(menu_item.id.as_str());
                    },
                }
                proof {
                    assert(final(self).menu_items@ =~= old(self).menu_items@);
                }
                Err(error)
            },
        }
    }

    /// Removes the menu item stored under `id` (if any).
    pub fn remove_menu_item(&mut self, id: &str) -> (r: Result<(), RemoveMenuItemError>)
        ensures
            r is Ok,
            final(self).same_settings(*old(self)),
            final(self).keyboard_selection == old(self).keyboard_selection,
            final(self).submenu_stack == old(self).submenu_stack,
            final(self).menu_items@ == old(self).menu_items@.remove(id@),
    {
        self.menu_items.remove(id);
        Ok(())
    }

    /// Removes all menu items.
    pub fn remove_all_menu_items(&mut self)
        ensures
            final(self).same_settings(*old(self)),
            final(self).keyboard_selection == old(self).keyboard_selection,
            final(self).submenu_stack == old(self).submenu_stack,
            final(self).menu_items@ == Map::<Seq<char>, ItemView>::empty(),
    {
        self.menu_items.clear();
    }

    /// Returns the number of menu items on the main ring.
    pub fn menu_item_count(&self) -> (n: usize)
        ensures
            n == self.menu_items@.len(),
    {
        self.menu_items.len()
    }

    /// Sets the enabled state of the menu item stored under `id`.
    pub fn set_menu_item_enabled(&mut self, id: &str, enabled: bool) -> (r: Result<(), SetMenuItemEnabledError>)
        ensures
            final(self).same_settings(*old(self)),
            final(self).keyboard_selection == old(self).keyboard_selection,
            final(self).submenu_stack == old(self).submenu_stack,
            r is Ok <==> old(self).menu_items@.contains_key(id@),
            r is Ok ==> final(self).menu_items@ == old(self).menu_items@.insert(
                id@,
                ItemView { enabled, ..old(self).menu_items@[id@] },
            ),
            r is Err ==> *final(self) == *old(self),
            r matches Err(e) ==> final(self).menu_items@ == old(self).menu_items@ && match e {
                SetMenuItemEnabledError::NotFound { id: missing } => missing@ == id@,
            },
    {
        match self.menu_items.get(id) {
            Some(mut item) => {
                item.enabled = enabled;
                let key = id.to_owned();
                self.menu_items.insert(key, item);
                proof {
                    assert(final(self).menu_items@ =~= old(self).menu_items@.insert(
                        id@,
                        ItemView { enabled, ..old(self).menu_items@[id@] },
                    ));
                }
                Ok(())
            },
            None => Err(SetMenuItemEnabledError::NotFound { id: id.to_owned() }),
        }
    }

    /// A copy of the item stored under `id`, if any.
    pub fn get_menu_item(&self, id: &str) -> (r: Option<MenuItem>)
        ensures
            opt_view(r) == (if self.menu_items@.contains_key(id@) {
                Some(self.menu_items@[id@])
            } else {
                None
            }),
    {
        self.menu_items.get(id)
    }

    /// Replaces the stored item with the id of `menu_item`, then checks it
    /// against the other items on the ring with `overlaps`. On an overlap the
    /// previous item is put back and the overlap is reported.
    pub fn update_menu_item<O: Fn(&MenuItem, &MenuItem, u32) -> bool>(&mut self, menu_item: MenuItem, overlaps: &O) -> (r:
        Result<(), UpdateMenuItemError>)
        requires
            forall|a: &MenuItem, b: &MenuItem, r: u32| call_requires(*overlaps, (a, b, r)),
        ensures
            final(self).same_settings(*old(self)),
            final(self).keyboard_selection == old(self).keyboard_selection,
            final(self).submenu_stack == old(self).submenu_stack,
            r matches Err(UpdateMenuItemError::NotFound { id }) <==> !old(self).menu_items@.contains_key(menu_item@.id),
            r matches Err(UpdateMenuItemError::NotFound { id }) ==> id@ == menu_item@.id,
            r is Err ==> final(self).menu_items@ == old(self).menu_items@,
            r is Ok ==> final(self).menu_items@ == old(self).menu_items@.insert(menu_item@.id, menu_item@),
            r is Ok && !is_zero_radius(old(self).radius_bits) ==> all_clear_of(
                old(self).menu_items@.insert(menu_item@.id, menu_item@),
                *overlaps,
                menu_item@,
                old(self).radius_bits,
            ),
            r matches Err(UpdateMenuItemError::ItemOverlap { id, overlapping_with }) ==> !is_zero_radius(old(self).radius_bits)
                && is_overlap_error(
                old(self).menu_items@.insert(menu_item@.id, menu_item@),
                *overlaps,
                menu_item@,
                old(self).radius_bits,
                (AddMenuItemError::ItemOverlap { id, overlapping_with }),
            ),
    {
        let previous = match self.menu_items.get(menu_item.id.as_str()) {
            None => {
                return Err(UpdateMenuItemError::NotFound { id: menu_item.id.clone() });
            },
            Some(p) => p,
        };
        let key = menu_item.id.clone();
        let stored = menu_item.copy();
        self.menu_items.insert(key, stored);
        match self.menu_items.validate_no_overlap(&menu_item, self.radius_bits, overlaps) {
            Ok(()) => Ok(()),
            Err(error) => {
                self.menu_items.insert(menu_item.id.clone(), previous);
                proof {
                    assert(final(self).menu_items@ =~= old(self).menu_items@);
                }
                match error {
                    AddMenuItemError::ItemOverlap { id, overlapping_with } => Err(
                        UpdateMenuItemError::ItemOverlap { id, overlapping_with },
                    ),
                    AddMenuItemError::MenuWidgetNotAvailable => {
                        proof {
                            assert(false);
                        }
                        Err(UpdateMenuItemError::NotFound { id: menu_item.id.clone() })
                    },
                }
            },
        }
    }

    /// Adds a menu item whose angle is found by redistribution: the item is
    /// stored under its id, all angles are re-assigned as `plan` decides, and
    /// every item is checked against the others with `overlaps`. On an overlap
    /// the menu is restored exactly as it was before the call.
    pub fn add_menu_item_auto<P: Fn(&Vec<MenuItem>) -> Vec<(String, u32)>, O: Fn(&MenuItem, &MenuItem, u32) -> bool>(
        &mut self,
        menu_item: MenuItem,
        plan: &P,
        overlaps: &O,
    ) -> (r: Result<(), AddMenuItemError>)
        requires
            forall|v: &Vec<MenuItem>| call_requires(*plan, (v,)),
            forall|a: &MenuItem, b: &MenuItem, r: u32| call_requires(*overlaps, (a, b, r)),
        ensures
            final(self).same_settings(*old(self)),
            final(self).keyboard_selection == old(self).keyboard_selection,
            final(self).submenu_stack == old(self).submenu_stack,
            r is Err ==> final(self).menu_items@ == old(self).menu_items@,
            r is Ok ==> plan_layout(old(self).menu_items@.insert(menu_item@.id, menu_item@), *plan, final(self).menu_items@),
            r is Ok ==> same_but_angles(old(self).menu_items@.insert(menu_item@.id, menu_item@), final(self).menu_items@),
            r is Ok ==> keeps_fixed(old(self).menu_items@.insert(menu_item@.id, menu_item@), final(self).menu_items@),
            is_zero_radius(old(self).radius_bits) ==> r is Ok,
            r is Ok && !is_zero_radius(old(self).radius_bits) ==> forall|k: Seq<char>|
                #[trigger] final(self).menu_items@.contains_key(k) ==> all_clear_of(
                    final(self).menu_items@,
                    *overlaps,
                    final(self).menu_items@[k],
                    old(self).radius_bits,
                ),
            r matches Err(e) ==> !is_zero_radius(old(self).radius_bits) && exists|t: Map<Seq<char>, ItemView>|
                #[trigger] plan_layout(old(self).menu_items@.insert(menu_item@.id, menu_item@), *plan, t) && layout_overlap(
                    t,
                    *overlaps,
                    old(self).radius_bits,
                    e,
                ),
    {
        let ghost m0 = self.menu_items@;
        let previous = self.menu_items.get(menu_item.id.as_str());
        let es = self.menu_items.entries();
        let mut snapshot: Vec<(String, u32)> = Vec::new();
        let mut i: usize = 0;
        while i < es.len()
            invariant
                i <= es@.len(),
                snapshot@.len() == i,
                forall|j: int|
                    0 <= j < i ==> (#[trigger] snapshot@[j]).0@ == es@[j].0@ && snapshot@[j].1 == es@[j].1.angle_bits,
            decreases es@.len() - i,
        {
            snapshot.push((es[i].0.clone(), es[i].1.angle_bits));
            i = i + 1;
        }
        let key = menu_item.id.clone();
        let stored = menu_item.copy();
        self.menu_items.insert(key, stored);
        let ghost ins = self.menu_items@;
        self.menu_items.redistribute_angles(plan);
        let ghost m1 = self.menu_items@;
        match self.menu_items.validate_all_no_overlap(self.radius_bits, overlaps) {
            Ok(()) => Ok(()),
            Err(error) => {
                match previous {
                    Some(p) => {
                        self.menu_items.insert(menu_item.id.clone(), p);
                    },
                    None => {
                        self.menu_items.remove(menu_item.id.as_str());
                    },
                }
                let ghost m2 = self.menu_items@;
                let ghost sv = assignment_views(snapshot@);
                proof {
                    assert(m2.dom() =~= m0.dom());
                    assert forall|k: Seq<char>| #[trigger] m0.contains_key(k) implies m2[k] == set_angle(
                        m0[k],
                        m2[k].angle_bits,
                    ) by {
                        if k != menu_item@.id {
                            assert(m1[k] == set_angle(ins[k], m1[k].angle_bits));
                        }
                    }
                }
                let mut j: usize = 0;
                while j < snapshot.len()
                    invariant
                        j <= snapshot@.len(),
                        sv == assignment_views(snapshot@),
                        self.menu_items@ == with_angles(m2, sv.take(j as int)),
                        self.same_settings(*old(self)),
                        self.keyboard_selection == old(self).keyboard_selection,
                        self.submenu_stack == old(self).submenu_stack,
                    decreases snapshot@.len() - j,
                {
                    self.menu_items.update_angle(snapshot[j].0.as_str(), snapshot[j].1);
                    proof {
                        assert(sv.take(j + 1).drop_last() =~= sv.take(j as int));
                    }
                    j = j + 1;
                }
                proof {
                    assert(sv.take(j as int) =~= sv);
                    lemma_with_angles_same_but_angles(m2, sv);
                    assert forall|a: int, b: int| 0 <= a < b < sv.len() implies sv[a].0 != sv[b].0 by {
                        assert(sv[a].0 == es@[a].0@);
                        assert(sv[b].0 == es@[b].0@);
                    }
                    assert forall|k: Seq<char>| #[trigger] m0.contains_key(k) implies self.menu_items@[k] == m0[k] by {
                        lemma_with_angles_distinct(m2, sv, k);
                        let w = choose|w: int| 0 <= w < es@.len() && #[trigger] es@[w].0@ == k;
                        assert(sv[w].0 == k);
                        assert(self.menu_items@[k] == set_angle(m2[k], sv[w].1));
                        assert(sv[w].1 == m0[k].angle_bits);
                    }
                    assert(self.menu_items@ =~= m0);
                }
                Err(error)
            },
        }
    }

    /// Redistributes the item angles as `plan` assigns them (see
    /// [`Menu::redistribute_angles`]).
    pub fn redistribute<P: Fn(&Vec<MenuItem>) -> Vec<(String, u32)>>(&mut self, plan: &P)
        requires
            forall|v: &Vec<MenuItem>| call_requires(*plan, (v,)),
        ensures
            final(self).same_settings(*old(self)),
            final(self).keyboard_selection == old(self).keyboard_selection,
            final(self).submenu_stack == old(self).submenu_stack,
            plan_layout(old(self).menu_items@, *plan, final(self).menu_items@),
            same_but_angles(old(self).menu_items@, final(self).menu_items@),
            keeps_fixed(old(self).menu_items@, final(self).menu_items@),
    {
        self.menu_items.redistribute_angles(plan);
    }

    /// Returns the current submenu depth (0 = main ring).
    pub fn submenu_depth(&self) -> (d: u32)
        ensures
            d == self.submenu_stack@.len() as u32,
    {
        self.submenu_stack.len() as u32
    }
}

} // verus!
