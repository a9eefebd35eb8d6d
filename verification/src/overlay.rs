//! The state behind the overlay that opens and closes the pie menu and
//! navigates its submenus.
//!
//! Every message the overlay sends to the application is appended to
//! [`PieMenuOverlayWidgetImpl::outbox`], in order; the caller delivers them.

use vstd::prelude::*;
use vstd::string::*;
use crate::item::{MenuItem, ItemView, find_view, items_view, opt_view, contains_id, replace_view};
use crate::menu::{Menu, is_overlap_error, is_zero_radius, is_item_walk, map_of_items, all_clear_of, same_but_angles, plan_layout, layout_overlap, keeps_fixed};
use crate::error::{
    AddMenuItemError, RemoveMenuItemError, SetMenuItemEnabledError, SubmenuError, ShowPieMenuError, HidePieMenuError,
};
use crate::widget::{PieMenuWidgetImpl, stack_text, DEFAULT_PIE_MENU_RADIUS_BITS, DEFAULT_PIE_MENU_CENTER_RADIUS_BITS, DEFAULT_SUBMENU_RADIUS_STEP_BITS};
use crate::selection::{selects_nearest, opt_text, selection_step_ok};

verus! {

/// Bits of the default activation threshold (`3.5f64`): a pinch scale above it opens the menu.
pub const DEFAULT_ACTIVATION_THRESHOLD_BITS: u64 = 0x400c_0000_0000_0000u64;

/// Bits of the default deactivation threshold (`0.5f64`): a pinch scale below it closes the menu.
pub const DEFAULT_DEACTIVATION_THRESHOLD_BITS: u64 = 0x3fe0_0000_0000_0000u64;

/// Bits of the default scroll rotation sensitivity (`5.0f64`).
pub const DEFAULT_SCROLL_ROTATION_STEP_BITS: u64 = 0x4014_0000_0000_0000u64;

/// The deepest submenu nesting the overlay opens.
pub const MAX_SUBMENU_DEPTH: u32 = 3u32;

/// Messages sent from the pie menu to the consumer application.
#[non_exhaustive]
#[derive(Debug, Clone)]
pub enum PieMenuMessage {
    /// The pie menu was opened.
    Opened,
    /// The pie menu was closed.
    Closed,
    /// Rotation delta in degrees (the bits of an `f32`) from the rotation gesture.
    Rotate(u32),
    /// Custom event triggered by a menu item: the item's `event`.
    Event(String),
    /// A submenu was opened. Contains the parent item's id.
    SubmenuOpened(String),
    /// The submenu was closed, returning to the parent ring. Contains the parent item's id.
    SubmenuClosed(String),
}

/// The value of a message, with its texts as character sequences.
pub enum MessageView {
    Opened,
    Closed,
    Rotate(u32),
    Event(Seq<char>),
    SubmenuOpened(Seq<char>),
    SubmenuClosed(Seq<char>),
}

impl View for PieMenuMessage {
    type V = MessageView;

    open spec fn view(&self) -> MessageView {
        match self {
            PieMenuMessage::Opened => MessageView::Opened,
            PieMenuMessage::Closed => MessageView::Closed,
            PieMenuMessage::Rotate(b) => MessageView::Rotate(*b),
            PieMenuMessage::Event(s) => MessageView::Event(s@),
            PieMenuMessage::SubmenuOpened(s) => MessageView::SubmenuOpened(s@),
            PieMenuMessage::SubmenuClosed(s) => MessageView::SubmenuClosed(s@),
        }
    }
}

/// The values of a sequence of messages.
pub open spec fn messages(s: Seq<PieMenuMessage>) -> Seq<MessageView> {
    s.map_values(|m: PieMenuMessage| m@)
}

/// The overlay state.
pub struct PieMenuOverlayWidgetImpl {
    /// Whether the pie menu is shown.
    pub visible: bool,
    /// The pie menu ring, once constructed.
    pub pie_menu_widget: Option<PieMenuWidgetImpl>,
    /// Whether a zoom gesture is being handled.
    pub is_zooming: bool,
    /// Bits of the rotation when the current rotation gesture started.
    pub initial_rotation_bits: Option<u32>,
    /// Bits of the rotation when the last rotation gesture started (0 before the first).
    pub rotation_origin_bits: u32,
    /// Whether the rotation gesture is active.
    pub is_rotating: bool,
    /// Bits of the last rotation sent to the application.
    pub last_sent_rotation_bits: Option<u32>,
    /// Bits of the pinch scale (`f64`) above which the menu opens.
    pub activation_threshold_bits: u64,
    /// Bits of the pinch scale (`f64`) below which the menu closes.
    pub deactivation_threshold_bits: u64,
    /// Whether the rotation gesture is active while the menu is open.
    pub rotation_gesture_enabled: bool,
    /// Ids of the opened submenus, innermost last.
    pub submenu_stack: Vec<String>,
    /// Explicit ring radius bits per submenu level.
    pub submenu_radii: Vec<(u32, u32)>,
    /// Bits of the step (an `f32` value) between consecutive ring levels.
    pub submenu_radius_step_bits: u32,
    /// Bits of the scroll rotation sensitivity (`f64`).
    pub scroll_rotation_step_bits: u64,
    /// Bits of the stored left stick x-axis value (`f32`).
    pub left_stick_x_bits: u32,
    /// Messages for the application, oldest first.
    pub outbox: Vec<PieMenuMessage>,
}

/// The ring `after` is the ring `before` back on its main ring with no keyboard selection.
pub open spec fn ring_reset(after: Option<PieMenuWidgetImpl>, before: Option<PieMenuWidgetImpl>) -> bool {
    match (after, before) {
        (Some(w), Some(w0)) => {
            &&& w.menu_items == w0.menu_items
            &&& w.same_settings(w0)
            &&& w.keyboard_selection is None
            &&& w.submenu_stack@.len() == 0
        },
        _ => false,
    }
}

impl Default for PieMenuOverlayWidgetImpl {
    /// The overlay state before its ring is constructed: hidden, with no ring
    /// and default settings.
    fn default() -> (o: PieMenuOverlayWidgetImpl)
        ensures
            !o.visible,
            o.pie_menu_widget is None,
            o.activation_threshold_bits == DEFAULT_ACTIVATION_THRESHOLD_BITS,
            o.deactivation_threshold_bits == DEFAULT_DEACTIVATION_THRESHOLD_BITS,
            o.rotation_gesture_enabled,
            o.submenu_stack@.len() == 0,
            o.submenu_radii@.len() == 0,
            o.submenu_radius_step_bits == DEFAULT_SUBMENU_RADIUS_STEP_BITS,
            o.scroll_rotation_step_bits == DEFAULT_SCROLL_ROTATION_STEP_BITS,
            o.left_stick_x_bits == 0,
            o.outbox@.len() == 0,
            !o.is_zooming && !o.is_rotating,
            o.initial_rotation_bits is None && o.last_sent_rotation_bits is None,
            o.rotation_origin_bits == 0,
    {
        PieMenuOverlayWidgetImpl {
            visible: false,
            pie_menu_widget: None,
            is_zooming: false,
            initial_rotation_bits: None,
            rotation_origin_bits: 0,
            is_rotating: false,
            last_sent_rotation_bits: None,
            activation_threshold_bits: DEFAULT_ACTIVATION_THRESHOLD_BITS,
            deactivation_threshold_bits: DEFAULT_DEACTIVATION_THRESHOLD_BITS,
            rotation_gesture_enabled: true,
            submenu_stack: Vec::new(),
            submenu_radii: Vec::new(),
            submenu_radius_step_bits: DEFAULT_SUBMENU_RADIUS_STEP_BITS,
            scroll_rotation_step_bits: DEFAULT_SCROLL_ROTATION_STEP_BITS,
            left_stick_x_bits: 0,
            outbox: Vec::new(),
        }
    }
}

impl PieMenuOverlayWidgetImpl {
    /// The input and gesture settings that menu operations leave alone.
    pub open spec fn same_controls(self, other: PieMenuOverlayWidgetImpl) -> bool {
        &&& self.is_zooming == other.is_zooming
        &&& self.initial_rotation_bits == other.initial_rotation_bits
        &&& self.rotation_origin_bits == other.rotation_origin_bits
        &&& self.is_rotating == other.is_rotating
        &&& self.last_sent_rotation_bits == other.last_sent_rotation_bits
        &&& self.activation_threshold_bits == other.activation_threshold_bits
        &&& self.deactivation_threshold_bits == other.deactivation_threshold_bits
        &&& self.rotation_gesture_enabled == other.rotation_gesture_enabled
        &&& self.submenu_radii == other.submenu_radii
        &&& self.submenu_radius_step_bits == other.submenu_radius_step_bits
        &&& self.scroll_rotation_step_bits == other.scroll_rotation_step_bits
        &&& self.left_stick_x_bits == other.left_stick_x_bits
    }

    /// A constructed overlay: hidden, around a freshly built ring, with default settings.
    pub fn new() -> (o: PieMenuOverlayWidgetImpl)
        ensures
            !o.visible,
            o.pie_menu_widget matches Some(w) && w.menu_items@ == Map::<Seq<char>, ItemView>::empty()
                && w.submenu_stack@.len() == 0 && w.keyboard_selection is None && w.rotation_bits == 0 && w.radius_bits
                == DEFAULT_PIE_MENU_RADIUS_BITS && w.center_radius_bits == DEFAULT_PIE_MENU_CENTER_RADIUS_BITS
                && w.hovered_item_index == -1 && w.markings_enabled && w.submenu_radius_step_bits
                == DEFAULT_SUBMENU_RADIUS_STEP_BITS,
            o.activation_threshold_bits == DEFAULT_ACTIVATION_THRESHOLD_BITS,
            o.deactivation_threshold_bits == DEFAULT_DEACTIVATION_THRESHOLD_BITS,
            o.rotation_gesture_enabled,
            o.submenu_stack@.len() == 0,
            o.submenu_radii@.len() == 0,
            o.submenu_radius_step_bits == DEFAULT_SUBMENU_RADIUS_STEP_BITS,
            o.scroll_rotation_step_bits == DEFAULT_SCROLL_ROTATION_STEP_BITS,
            o.left_stick_x_bits == 0,
            o.outbox@.len() == 0,
            !o.is_zooming && !o.is_rotating,
            o.initial_rotation_bits is None && o.last_sent_rotation_bits is None,
            o.rotation_origin_bits == 0,
    {
        PieMenuOverlayWidgetImpl {
            visible: false,
            pie_menu_widget: Some(PieMenuWidgetImpl::new()),
            is_zooming: false,
            initial_rotation_bits: None,
            rotation_origin_bits: 0,
            is_rotating: false,
            last_sent_rotation_bits: None,
            activation_threshold_bits: DEFAULT_ACTIVATION_THRESHOLD_BITS,
            deactivation_threshold_bits: DEFAULT_DEACTIVATION_THRESHOLD_BITS,
            rotation_gesture_enabled: true,
            submenu_stack: Vec::new(),
            submenu_radii: Vec::new(),
            submenu_radius_step_bits: DEFAULT_SUBMENU_RADIUS_STEP_BITS,
            scroll_rotation_step_bits: DEFAULT_SCROLL_ROTATION_STEP_BITS,
            left_stick_x_bits: 0,
            outbox: Vec::new(),
        }
    }

    /// Queues a message for the application.
    pub fn send_message(&mut self, message: PieMenuMessage)
        ensures
            messages(final(self).outbox@) == messages(old(self).outbox@).push(message@),
            final(self).visible == old(self).visible,
            final(self).pie_menu_widget == old(self).pie_menu_widget,
            final(self).submenu_stack == old(self).submenu_stack,
            final(self).same_controls(*old(self)),
    {
        self.outbox.push(message);
        proof {
            assert(messages(self.outbox@) =~= messages(old(self).outbox@).push(message@));
        }
    }

    /// Hands out the queued messages, oldest first, and empties the queue.
    pub fn take_messages(&mut self) -> (r: Vec<PieMenuMessage>)
        ensures
            messages(r@) == messages(old(self).outbox@),
            final(self).outbox@.len() == 0,
            final(self).visible == old(self).visible,
            final(self).pie_menu_widget == old(self).pie_menu_widget,
            final(self).submenu_stack == old(self).submenu_stack,
            final(self).same_controls(*old(self)),
    {
        let mut r: Vec<PieMenuMessage> = Vec::new();
        std::mem::swap(&mut r, &mut self.outbox);
        r
    }

    /// Shows the pie menu on its main ring with no keyboard selection.
    pub fn show_pie_menu(&mut self) -> (r: Result<(), ShowPieMenuError>)
        ensures
            r is Err <==> old(self).pie_menu_widget is None,
            r is Err ==> *final(self) == *old(self),
            r is Ok ==> final(self).shown_from(*old(self)),
    {
        let taken = self.pie_menu_widget.take();
        match taken {
            None => Err(ShowPieMenuError::MenuWidgetNotAvailable),
            Some(mut w) => {
                self.visible = true;
                self.submenu_stack.clear();
                w.keyboard_selection = None;
                w.set_submenu_stack(Vec::new());
                self.pie_menu_widget = Some(w);
                self.send_message(PieMenuMessage::Opened);
                Ok(())
            },
        }
    }

    /// Hides the pie menu, closing its submenus and clearing the keyboard selection.
    pub fn hide_pie_menu(&mut self) -> (r: Result<(), HidePieMenuError>)
        ensures
            r is Err <==> old(self).pie_menu_widget is None,
            r is Err ==> *final(self) == *old(self),
            r is Ok ==> final(self).hidden_then(*old(self), Seq::empty()),
    {
        let taken = self.pie_menu_widget.take();
        match taken {
            None => Err(HidePieMenuError::MenuWidgetNotAvailable),
            Some(mut w) => {
                self.visible = false;
                self.submenu_stack.clear();
                w.keyboard_selection = None;
                w.set_submenu_stack(Vec::new());
                self.pie_menu_widget = Some(w);
                self.send_message(PieMenuMessage::Closed);
                proof {
                    assert(messages(self.outbox@) =~= messages(old(self).outbox@).push(MessageView::Closed) + Seq::<
                        MessageView,
                    >::empty());
                }
                Ok(())
            },
        }
    }

    /// Whether the pie menu is shown.
    pub fn is_pie_menu_open(&self) -> (b: bool)
        ensures
            b == self.visible,
    {
        self.visible
    }
}

/// The explicit radius of ring `level`: the first entry for it, if any.
pub open spec fn radius_override(radii: Seq<(u32, u32)>, level: u32) -> Option<u32>
    decreases radii.len(),
{
    if radii.len() == 0 {
        None
    } else if radii[0].0 == level {
        Some(radii[0].1)
    } else {
        radius_override(radii.drop_first(), level)
    }
}

/// The radius bits of the main ring, or the default radius without a ring.
pub open spec fn main_radius(w: Option<PieMenuWidgetImpl>) -> u32 {
    match w {
        Some(w) => w.radius_bits,
        None => DEFAULT_PIE_MENU_RADIUS_BITS,
    }
}

/// The found parent's submenu, a non-empty one, was laid out and checked:
/// `t` is its items laid out by one answer of `plan` (fixed items in place),
/// `items` a walk of `t`, and no two items of `t` were reported overlapping on
/// a ring of `ring` bits.
pub open spec fn submenu_laid_out<P: Fn(&Vec<MenuItem>) -> Vec<(String, u32)>, O: Fn(&MenuItem, &MenuItem, u32) -> bool>(
    sub: Seq<ItemView>,
    plan: P,
    overlaps: O,
    ring: u32,
    items: Seq<MenuItem>,
) -> bool {
    exists|t: Map<Seq<char>, ItemView>|
        #[trigger] plan_layout(map_of_items(sub), plan, t) && keeps_fixed(map_of_items(sub), t) && is_item_walk(t, items)
            && (!is_zero_radius(ring) ==> forall|
            k: Seq<char>,
        | #[trigger] t.contains_key(k) ==> all_clear_of(t, overlaps, t[k], ring))
}

/// The subtree of some top-level item of `m` holds `id`, found as `p`.
pub open spec fn found_in_menu(m: Map<Seq<char>, ItemView>, id: Seq<char>, p: ItemView) -> bool {
    exists|k: Seq<char>| #[trigger] m.contains_key(k) && find_view(m[k], id) == Some(p)
}

/// `after` is `before` with the submenu of `parent` replaced by `sub` in the
/// first top-level item (in some walk) that holds it.
pub open spec fn submenu_replaced(
    before: Map<Seq<char>, ItemView>,
    after: Map<Seq<char>, ItemView>,
    parent: Seq<char>,
    sub: Seq<ItemView>,
) -> bool {
    exists|k: Seq<char>|
        #[trigger] before.contains_key(k) && contains_id(before[k], parent) && after == before.insert(
            k,
            replace_view(before[k], parent, sub),
        )
}

/// `ring` is the radius of ring `level` of overlay `o`, as `by_step` computed it where no explicit one was set.
pub open spec fn level_radius<R: Fn(u32, u32, u32) -> u32>(o: PieMenuOverlayWidgetImpl, level: u32, by_step: R, ring: u32) -> bool {
    match radius_override(o.submenu_radii@, level) {
        Some(x) => ring == x,
        None => call_ensures(by_step, (main_radius(o.pie_menu_widget), level, o.submenu_radius_step_bits), ring),
    }
}

/// A submenu level without an explicit radius sits on the ring computed from
/// the main ring's current radius (the default radius only when there is no
/// ring), the level and the step.
pub proof fn lemma_level_radius_from_ring_radius<R: Fn(u32, u32, u32) -> u32>(
    o: PieMenuOverlayWidgetImpl,
    level: u32,
    by_step: R,
    ring: u32,
)
    requires
        level_radius(o, level, by_step, ring),
        radius_override(o.submenu_radii@, level) is None,
    ensures
        o.pie_menu_widget matches Some(w) ==> call_ensures(by_step, (w.radius_bits, level, o.submenu_radius_step_bits), ring),
        o.pie_menu_widget is None ==> call_ensures(
            by_step,
            (DEFAULT_PIE_MENU_RADIUS_BITS, level, o.submenu_radius_step_bits),
            ring,
        ),
{
}

/// The ring level a newly opened submenu of `o` goes on.
pub open spec fn next_level(o: PieMenuOverlayWidgetImpl) -> u32 {
    ((o.submenu_stack@.len() as u32) + 1) as u32
}

/// `sub`, laid out by one answer of `plan` into `t`, had two items of `t`
/// reported overlapping on a ring of `ring` bits.
pub open spec fn submenu_overlap_reported<P: Fn(&Vec<MenuItem>) -> Vec<(String, u32)>, O: Fn(&MenuItem, &MenuItem, u32) -> bool>(
    sub: Seq<ItemView>,
    plan: P,
    overlaps: O,
    ring: u32,
) -> bool {
    exists|t: Map<Seq<char>, ItemView>, e: AddMenuItemError|
        #[trigger] plan_layout(map_of_items(sub), plan, t) && !is_zero_radius(ring) && #[trigger] layout_overlap(
            t,
            overlaps,
            ring,
            e,
        )
}

/// `new` is `old` after opening the submenu of `parent`: the parent was found,
/// its non-empty submenu laid out on the next ring level and stored back, the
/// parent pushed on both stacks, the keyboard selection cleared and
/// `SubmenuOpened` sent.
pub open spec fn opened<P: Fn(&Vec<MenuItem>) -> Vec<(String, u32)>, O: Fn(&MenuItem, &MenuItem, u32) -> bool, R: Fn(u32, u32, u32) -> u32>(
    old: PieMenuOverlayWidgetImpl,
    new: PieMenuOverlayWidgetImpl,
    parent: Seq<char>,
    plan: P,
    overlaps: O,
    by_step: R,
) -> bool {
    match (old.pie_menu_widget, new.pie_menu_widget) {
        (Some(w0), Some(w)) => {
            &&& (old.submenu_stack@.len() as u32) < MAX_SUBMENU_DEPTH
            &&& exists|p: ItemView, ring: u32, items: Seq<MenuItem>|
                #![trigger found_in_menu(w0.menu_items@, parent, p), level_radius(old, next_level(old), by_step, ring), submenu_laid_out(submenu_or_none(p), plan, overlaps, ring, items)]
                {
                    &&& found_in_menu(w0.menu_items@, parent, p)
                    &&& p.submenu is Some
                    &&& submenu_or_none(p).len() > 0
                    &&& level_radius(old, next_level(old), by_step, ring)
                    &&& submenu_laid_out(submenu_or_none(p), plan, overlaps, ring, items)
                    &&& submenu_replaced(w0.menu_items@, w.menu_items@, parent, items_view(items))
                }
            &&& stack_text(new.submenu_stack@) == stack_text(old.submenu_stack@).push(parent)
            &&& stack_text(w.submenu_stack@) == stack_text(new.submenu_stack@)
            &&& w.keyboard_selection is None
            &&& w.same_settings(w0)
            &&& messages(new.outbox@) == messages(old.outbox@).push(MessageView::SubmenuOpened(parent))
            &&& new.visible == old.visible
            &&& new.same_controls(old)
        },
        _ => false,
    }
}

/// `items` walks the items of `sub` as laid out by one answer of `plan`
/// (fixed items in place).
pub open spec fn submenu_relaid<P: Fn(&Vec<MenuItem>) -> Vec<(String, u32)>>(sub: Seq<ItemView>, plan: P, items: Seq<MenuItem>) -> bool {
    exists|t: Map<Seq<char>, ItemView>|
        #[trigger] plan_layout(map_of_items(sub), plan, t) && keeps_fixed(map_of_items(sub), t) && is_item_walk(t, items)
}

/// Opening the submenu of `parent` in `o` is refused: the deepest nesting is
/// reached, the parent found has an empty submenu or none, or its re-angled
/// items were reported overlapping on the next ring level.
pub open spec fn open_refused<P: Fn(&Vec<MenuItem>) -> Vec<(String, u32)>, O: Fn(&MenuItem, &MenuItem, u32) -> bool, R: Fn(u32, u32, u32) -> u32>(
    o: PieMenuOverlayWidgetImpl,
    parent: Seq<char>,
    plan: P,
    overlaps: O,
    by_step: R,
) -> bool {
    ||| (o.submenu_stack@.len() as u32) >= MAX_SUBMENU_DEPTH
    ||| exists|p: ItemView|
        #[trigger] found_in_menu(o.pie_menu_widget->0.menu_items@, parent, p) && submenu_or_none(p).len() == 0
    ||| exists|p: ItemView, ring: u32|
        #[trigger] found_in_menu(o.pie_menu_widget->0.menu_items@, parent, p) && p.submenu is Some && #[trigger] level_radius(
            o,
            next_level(o),
            by_step,
            ring,
        ) && submenu_overlap_reported(submenu_or_none(p), plan, overlaps, ring)
}

/// `new` is `old` after closing its innermost submenu: the parent is popped
/// from both stacks, the keyboard selection cleared and `SubmenuClosed` sent
/// with the parent's id.
pub open spec fn closed_from(old: PieMenuOverlayWidgetImpl, new: PieMenuOverlayWidgetImpl) -> bool {
    &&& old.submenu_stack@.len() > 0
    &&& stack_text(new.submenu_stack@) == stack_text(old.submenu_stack@).drop_last()
    &&& messages(new.outbox@) == messages(old.outbox@).push(MessageView::SubmenuClosed(old.submenu_stack@.last()@))
    &&& match (old.pie_menu_widget, new.pie_menu_widget) {
        (Some(w0), Some(w)) => {
            &&& w.menu_items == w0.menu_items
            &&& w.same_settings(w0)
            &&& w.keyboard_selection is None
            &&& stack_text(w.submenu_stack@) == stack_text(new.submenu_stack@)
        },
        (None, None) => true,
        _ => false,
    }
    &&& new.visible == old.visible
    &&& new.same_controls(old)
}

/// Closing the submenu that was just opened returns to the parent ring: the
/// stack of open submenus is as before, and the application was told of the
/// opening and then of the closing of that submenu.
pub proof fn lemma_close_undoes_open<P: Fn(&Vec<MenuItem>) -> Vec<(String, u32)>, O: Fn(&MenuItem, &MenuItem, u32) -> bool, R: Fn(u32, u32, u32) -> u32>(
    o0: PieMenuOverlayWidgetImpl,
    o1: PieMenuOverlayWidgetImpl,
    o2: PieMenuOverlayWidgetImpl,
    parent: Seq<char>,
    plan: P,
    overlaps: O,
    by_step: R,
)
    requires
        opened(o0, o1, parent, plan, overlaps, by_step),
        closed_from(o1, o2),
    ensures
        stack_text(o2.submenu_stack@) == stack_text(o0.submenu_stack@),
        messages(o2.outbox@) == messages(o0.outbox@).push(MessageView::SubmenuOpened(parent)).push(
            MessageView::SubmenuClosed(parent),
        ),
        o2.visible == o0.visible,
        o2.same_controls(o0),
        o2.pie_menu_widget matches Some(w) && w.keyboard_selection is None && stack_text(w.submenu_stack@) == stack_text(
            o0.submenu_stack@,
        ),
{
    let t1 = stack_text(o1.submenu_stack@);
    assert(t1.last() == o1.submenu_stack@.last()@);
    assert(t1.drop_last() =~= stack_text(o0.submenu_stack@));
}

/// Hiding the menu undoes showing it: the menu is closed again on its main
/// ring, and the application was told of the opening and then of the closing.
pub proof fn lemma_hide_undoes_show(o0: PieMenuOverlayWidgetImpl, o1: PieMenuOverlayWidgetImpl, o2: PieMenuOverlayWidgetImpl)
    requires
        o1.shown_from(o0),
        o2.hidden_then(o1, Seq::empty()),
    ensures
        !o2.visible,
        o2.submenu_stack@.len() == 0,
        messages(o2.outbox@) == messages(o0.outbox@).push(MessageView::Opened).push(MessageView::Closed),
        o2.same_controls(o0),
        ring_reset(o2.pie_menu_widget, o0.pie_menu_widget),
{
    assert(messages(o2.outbox@) =~= messages(o1.outbox@).push(MessageView::Closed));
}

/// Opening a submenu keeps the nesting within the deepest level allowed.
pub proof fn lemma_open_respects_max_depth<P: Fn(&Vec<MenuItem>) -> Vec<(String, u32)>, O: Fn(&MenuItem, &MenuItem, u32) -> bool, R: Fn(u32, u32, u32) -> u32>(
    o0: PieMenuOverlayWidgetImpl,
    o1: PieMenuOverlayWidgetImpl,
    parent: Seq<char>,
    plan: P,
    overlaps: O,
    by_step: R,
)
    requires
        opened(o0, o1, parent, plan, overlaps, by_step),
        o0.submenu_stack@.len() <= MAX_SUBMENU_DEPTH,
    ensures
        o1.submenu_stack@.len() <= MAX_SUBMENU_DEPTH,
        o1.submenu_stack@.len() == o0.submenu_stack@.len() + 1,
{
    assert(stack_text(o1.submenu_stack@).len() == o1.submenu_stack@.len());
}

/// With ids unique over the ring's tree, reading the submenu of `parent` after
/// it was replaced by `sub` gives back `sub`: the parent is found, and wherever
/// it is found its submenu is `sub`.
pub proof fn lemma_submenu_read_after_write(
    before: Map<Seq<char>, ItemView>,
    after: Map<Seq<char>, ItemView>,
    parent: Seq<char>,
    sub: Seq<ItemView>,
)
    requires
        submenu_replaced(before, after, parent, sub),
        forall|k1: Seq<char>, k2: Seq<char>|
            #![trigger before[k1], before[k2]]
            before.contains_key(k1) && before.contains_key(k2) && contains_id(before[k1], parent) && contains_id(
                before[k2],
                parent,
            ) ==> k1 == k2,
    ensures
        exists|p: ItemView| #[trigger] found_in_menu(after, parent, p),
        forall|p: ItemView| #[trigger] found_in_menu(after, parent, p) ==> p.submenu == Some(sub) && submenu_or_none(p) == sub,
{
    let k = choose|k: Seq<char>|
        #[trigger] before.contains_key(k) && contains_id(before[k], parent) && after == before.insert(
            k,
            replace_view(before[k], parent, sub),
        );
    crate::item::lemma_find_after_replace(before[k], parent, sub);
    assert(after.contains_key(k));
    assert(after[k] == replace_view(before[k], parent, sub));
    let x = find_view(after[k], parent)->0;
    assert(found_in_menu(after, parent, x));
    assert forall|p: ItemView| #[trigger] found_in_menu(after, parent, p) implies p.submenu == Some(sub) && submenu_or_none(p)
        == sub by {
        let k2 = choose|k2: Seq<char>| #[trigger] after.contains_key(k2) && find_view(after[k2], parent) == Some(p);
        if k2 != k {
            assert(before[k2] == after[k2]);
            assert(contains_id(before[k2], parent));
            assert(before[k] == before[k]);
        }
    }
}

/// `new` is `old` with the submenu `sub` of `parent` re-angled by `plan` and
/// stored back into the ring, which is otherwise unchanged.
pub open spec fn submenu_relaid_in<P: Fn(&Vec<MenuItem>) -> Vec<(String, u32)>>(
    old: PieMenuOverlayWidgetImpl,
    new: PieMenuOverlayWidgetImpl,
    parent: Seq<char>,
    sub: Seq<ItemView>,
    plan: P,
) -> bool {
    match (old.pie_menu_widget, new.pie_menu_widget) {
        (Some(w0), Some(w)) => {
            &&& w.same_settings(w0)
            &&& w.keyboard_selection == w0.keyboard_selection
            &&& w.submenu_stack == w0.submenu_stack
            &&& exists|items: Seq<MenuItem>|
                #[trigger] submenu_relaid(sub, plan, items) && submenu_replaced(w0.menu_items@, w.menu_items@, parent, items_view(items))
        },
        _ => false,
    }
}

/// The submenu of an item value, or nothing.
pub open spec fn submenu_or_none(p: ItemView) -> Seq<ItemView> {
    match p.submenu {
        Some(s) => s,
        None => Seq::empty(),
    }
}

/// No top-level subtree of the overlay's ring holds `parent` (or there is no ring).
pub open spec fn parent_missing(o: PieMenuOverlayWidgetImpl, parent: Seq<char>) -> bool {
    match o.pie_menu_widget {
        Some(w) => forall|k: Seq<char>| #[trigger] w.menu_items@.contains_key(k) ==> find_view(w.menu_items@[k], parent) is None,
        None => true,
    }
}

impl PieMenuOverlayWidgetImpl {
    /// Everything but the ring is as in `other`.
    pub open spec fn same_but_ring(self, other: PieMenuOverlayWidgetImpl) -> bool {
        &&& self.visible == other.visible
        &&& self.submenu_stack == other.submenu_stack
        &&& self.outbox == other.outbox
        &&& self.same_controls(other)
    }

    /// The state after showing the menu from `old`.
    pub open spec fn shown_from(self, old: PieMenuOverlayWidgetImpl) -> bool {
        &&& self.visible
        &&& self.submenu_stack@.len() == 0
        &&& ring_reset(self.pie_menu_widget, old.pie_menu_widget)
        &&& messages(self.outbox@) == messages(old.outbox@).push(MessageView::Opened)
        &&& self.same_controls(old)
    }

    /// The state after sending `message` from `old`, with nothing else changed.
    pub open spec fn only_sent(self, old: PieMenuOverlayWidgetImpl, message: MessageView) -> bool {
        &&& self == (PieMenuOverlayWidgetImpl { outbox: self.outbox, ..old })
        &&& messages(self.outbox@) == messages(old.outbox@).push(message)
    }

    /// The state after hiding the menu from `old` and then sending `extra`.
    pub open spec fn hidden_then(self, old: PieMenuOverlayWidgetImpl, extra: Seq<MessageView>) -> bool {
        &&& !self.visible
        &&& self.submenu_stack@.len() == 0
        &&& ring_reset(self.pie_menu_widget, old.pie_menu_widget)
        &&& messages(self.outbox@) == messages(old.outbox@).push(MessageView::Closed) + extra
        &&& self.same_controls(old)
    }

    /// Opens the submenu of the item with `parent_id` on the next ring level:
    /// its items are re-angled by `plan` and checked with `overlaps` on the
    /// ring radius of that level (see [`Self::submenu_radius_for_level`]);
    /// then the parent is pushed on the submenu stack, the keyboard selection
    /// is cleared and `SubmenuOpened` is sent. On any error nothing changes.
    pub fn open_submenu<P: Fn(&Vec<MenuItem>) -> Vec<(String, u32)>, O: Fn(&MenuItem, &MenuItem, u32) -> bool, R: Fn(u32, u32, u32) -> u32>(
        &mut self,
        parent_id: &str,
        plan: &P,
        overlaps: &O,
        by_step: &R,
    ) -> (r: Result<(), SubmenuError>)
        requires
            forall|v: &Vec<MenuItem>| call_requires(*plan, (v,)),
            forall|a: &MenuItem, b: &MenuItem, r: u32| call_requires(*overlaps, (a, b, r)),
            forall|m: u32, l: u32, s: u32| call_requires(*by_step, (m, l, s)),
        ensures
            r is Err ==> *final(self) == *old(self),
            (old(self).submenu_stack@.len() as u32) >= MAX_SUBMENU_DEPTH <==> r == Err::<(), SubmenuError>(
                SubmenuError::MaxDepthReached { max_depth: MAX_SUBMENU_DEPTH },
            ),
            r matches Err(SubmenuError::MaxDepthReached { .. }) ==> (old(self).submenu_stack@.len() as u32) >= MAX_SUBMENU_DEPTH,
            r matches Err(SubmenuError::NotFound { id }) ==> id@ == parent_id@,
            r matches Err(SubmenuError::NotFound { .. }) <==> (old(self).submenu_stack@.len() as u32) < MAX_SUBMENU_DEPTH
                && parent_missing(*old(self), parent_id@),
            r matches Err(SubmenuError::NoSubmenu { id }) ==> id@ == parent_id@ && (old(self).submenu_stack@.len() as u32)
                < MAX_SUBMENU_DEPTH && exists|p: ItemView|
                #[trigger] found_in_menu(old(self).pie_menu_widget->0.menu_items@, parent_id@, p) && submenu_or_none(p).len() == 0,
            r matches Err(SubmenuError::ItemOverlap { parent_id: x }) ==> x@ == parent_id@ && (old(self).submenu_stack@.len()
                as u32) < MAX_SUBMENU_DEPTH && exists|p: ItemView, ring: u32|
                #[trigger] found_in_menu(old(self).pie_menu_widget->0.menu_items@, parent_id@, p) && p.submenu is Some
                    && #[trigger] level_radius(*old(self), next_level(*old(self)), *by_step, ring) && submenu_overlap_reported(
                    submenu_or_none(p),
                    *plan,
                    *overlaps,
                    ring,
                ),
            !(r matches Err(SubmenuError::NoSubmenuOpen)),
            r is Ok ==> opened(*old(self), *final(self), parent_id@, *plan, *overlaps, *by_step),
    {
        let depth = self.submenu_stack.len() as u32;
        if depth >= MAX_SUBMENU_DEPTH {
            return Err(SubmenuError::MaxDepthReached { max_depth: MAX_SUBMENU_DEPTH });
        }
        let parent_item = match &self.pie_menu_widget {
            None => {
                return Err(SubmenuError::NotFound { id: parent_id.to_owned() });
            },
            Some(w) => match w.menu_items.find_item_recursive(parent_id) {
                None => {
                    return Err(SubmenuError::NotFound { id: parent_id.to_owned() });
                },
                Some(item) => item,
            },
        };
        let ghost p = parent_item@;
        let submenu_items = match parent_item.submenu {
            None => {
                proof {
                    assert(found_in_menu(old(self).pie_menu_widget->0.menu_items@, parent_id@, p));
                }
                return Err(SubmenuError::NoSubmenu { id: parent_id.to_owned() });
            },
            Some(v) => v,
        };
        proof {
            assert(p.submenu == Some(items_view(submenu_items@)));
            crate::item::lemma_items_view(submenu_items@);
        }
        if submenu_items.len() == 0 {
            proof {
                assert(found_in_menu(old(self).pie_menu_widget->0.menu_items@, parent_id@, p));
            }
            return Err(SubmenuError::NoSubmenu { id: parent_id.to_owned() });
        }
        let mut temp_menu = Menu::from_items(submenu_items);
        let ghost t0 = temp_menu@;
        temp_menu.redistribute_angles(plan);
        let ring_radius = self.submenu_radius_for_level(depth + 1, by_step);
        match temp_menu.validate_all_no_overlap(ring_radius, overlaps) {
            Ok(()) => {},
            Err(e) => {
                proof {
                    assert(found_in_menu(old(self).pie_menu_widget->0.menu_items@, parent_id@, p));
                    assert(level_radius(*old(self), next_level(*old(self)), *by_step, ring_radius));
                    assert(plan_layout(map_of_items(submenu_or_none(p)), *plan, temp_menu@));
                    assert(layout_overlap(temp_menu@, *overlaps, ring_radius, e));
                }
                return Err(SubmenuError::ItemOverlap { parent_id: parent_id.to_owned() });
            },
        }
        let items = temp_menu.to_items();
        let ghost laid = items@;
        let taken = self.pie_menu_widget.take();
        let mut w = match taken {
            Some(w) => w,
            None => {
                return Err(SubmenuError::NotFound { id: parent_id.to_owned() });
            },
        };
        let ghost w0 = w;
        w.menu_items.replace_submenu_recursive(parent_id, items);
        self.submenu_stack.push(parent_id.to_owned());
        let stack_copy = self.submenu_stack.clone();
        w.set_submenu_stack(stack_copy);
        w.keyboard_selection = None;
        self.pie_menu_widget = Some(w);
        self.send_message(PieMenuMessage::SubmenuOpened(parent_id.to_owned()));
        proof {
            assert(found_in_menu(w0.menu_items@, parent_id@, p));
            assert(level_radius(*old(self), next_level(*old(self)), *by_step, ring_radius));
            assert(submenu_laid_out(submenu_or_none(p), *plan, *overlaps, ring_radius, laid));
            assert(stack_text(self.submenu_stack@) =~= stack_text(old(self).submenu_stack@).push(parent_id@));
        }
        Ok(())
    }

    /// Confirms the keyboard selection: an enabled selected item with a submenu
    /// has its submenu opened (see [`Self::open_submenu`]); any other enabled
    /// selected item hides the menu and sends its event. Nothing happens without
    /// a selection, or when the selected item is missing or disabled.
    pub fn confirm_selection<P: Fn(&Vec<MenuItem>) -> Vec<(String, u32)>, O: Fn(&MenuItem, &MenuItem, u32) -> bool, R: Fn(u32, u32, u32) -> u32>(
        &mut self,
        plan: &P,
        overlaps: &O,
        by_step: &R,
    )
        requires
            forall|v: &Vec<MenuItem>| call_requires(*plan, (v,)),
            forall|a: &MenuItem, b: &MenuItem, r: u32| call_requires(*overlaps, (a, b, r)),
            forall|m: u32, l: u32, s: u32| call_requires(*by_step, (m, l, s)),
        ensures
            match old(self).pie_menu_widget {
                None => *final(self) == *old(self),
                Some(w0) => match w0.keyboard_selection {
                    None => *final(self) == *old(self),
                    Some(id) => {
                        &&& parent_missing(*old(self), id@) ==> *final(self) == *old(self)
                        &&& !parent_missing(*old(self), id@) ==> exists|p: ItemView|
                            #[trigger] found_in_menu(w0.menu_items@, id@, p) && (!p.enabled ==> *final(self) == *old(self))
                                && (p.enabled && p.submenu is Some ==> opened(
                                *old(self),
                                *final(self),
                                id@,
                                *plan,
                                *overlaps,
                                *by_step,
                            ) || (*final(self) == *old(self) && open_refused(*old(self), id@, *plan, *overlaps, *by_step)))
                                && (p.enabled && p.submenu is None ==> final(self).hidden_then(
                                *old(self),
                                seq![MessageView::Event(p.event)],
                            ))
                    },
                },
            },
    {
        let selected = match &self.pie_menu_widget {
            None => None,
            Some(w) => w.keyboard_selection(),
        };
        let id = match selected {
            None => {
                return;
            },
            Some(id) => id,
        };
        let found = match &self.pie_menu_widget {
            None => None,
            Some(w) => w.menu_items.find_item_recursive(id.as_str()),
        };
        let item = match found {
            None => {
                return;
            },
            Some(item) => item,
        };
        let ghost p = item@;
        proof {
            assert(found_in_menu(old(self).pie_menu_widget->0.menu_items@, id@, p));
        }
        if !item.enabled {
            return;
        }
        if item.submenu.is_some() {
            let r = self.open_submenu(id.as_str(), plan, overlaps, by_step);
            proof {
                if r is Err {
                    assert(!parent_missing(*old(self), id@));
                    if r matches Err(SubmenuError::NoSubmenu { .. }) {
                        let q = choose|q: ItemView| #[trigger] found_in_menu(old(self).pie_menu_widget->0.menu_items@, id@, q) && submenu_or_none(q).len() == 0;
                        assert(open_refused(*old(self), id@, *plan, *overlaps, *by_step));
                    }
                    if r matches Err(SubmenuError::ItemOverlap { .. }) {
                        let (q, ring) = choose|q: ItemView, ring: u32| #[trigger] found_in_menu(old(self).pie_menu_widget->0.menu_items@, id@, q) && q.submenu is Some && #[trigger] level_radius(*old(self), next_level(*old(self)), *by_step, ring) && submenu_overlap_reported(submenu_or_none(q), *plan, *overlaps, ring);
                        assert(open_refused(*old(self), id@, *plan, *overlaps, *by_step));
                    }
                }
            }
        } else {
            let event = item.event;
            let _ = self.hide_pie_menu();
            self.send_message(PieMenuMessage::Event(event));
            proof {
                assert(messages(self.outbox@) =~= messages(old(self).outbox@).push(MessageView::Closed) + seq![MessageView::Event(p.event)]);
            }
        }
    }

    /// Closes the innermost open submenu, returning to its parent ring, clears
    /// the keyboard selection and sends `SubmenuClosed`.
    pub fn close_submenu(&mut self) -> (r: Result<(), SubmenuError>)
        ensures
            old(self).submenu_stack@.len() == 0 <==> r is Err,
            r is Err ==> *final(self) == *old(self) && r == Err::<(), SubmenuError>(SubmenuError::NoSubmenuOpen),
            r is Ok ==> closed_from(*old(self), *final(self)),
    {
        if self.submenu_stack.len() == 0 {
            return Err(SubmenuError::NoSubmenuOpen);
        }
        let popped = self.submenu_stack.pop();
        let parent_id = match popped {
            None => {
                return Err(SubmenuError::NoSubmenuOpen);
            },
            Some(id) => id,
        };
        let taken = self.pie_menu_widget.take();
        match taken {
            Some(mut w) => {
                let stack_copy = self.submenu_stack.clone();
                w.set_submenu_stack(stack_copy);
                w.keyboard_selection = None;
                self.pie_menu_widget = Some(w);
            },
            None => {},
        }
        self.send_message(PieMenuMessage::SubmenuClosed(parent_id));
        proof {
            assert(stack_text(self.submenu_stack@) =~= stack_text(old(self).submenu_stack@).drop_last());
        }
        Ok(())
    }

    /// Copies of the submenu items of the item with `parent_id` (nothing when
    /// there is no ring, no such item or no submenu).
    pub fn get_submenu_items(&self, parent_id: &str) -> (r: Vec<MenuItem>)
        ensures
            parent_missing(*self, parent_id@) ==> r@.len() == 0,
            !parent_missing(*self, parent_id@) ==> exists|p: ItemView|
                #[trigger] found_in_menu(self.pie_menu_widget->0.menu_items@, parent_id@, p) && items_view(r@)
                    == submenu_or_none(p),
    {
        match &self.pie_menu_widget {
            None => Vec::new(),
            Some(w) => match w.menu_items.find_item_recursive(parent_id) {
                None => Vec::new(),
                Some(item) => {
                    let ghost p = item@;
                    proof {
                        assert(found_in_menu(w.menu_items@, parent_id@, p));
                    }
                    match item.submenu {
                        Some(v) => {
                            proof {
                                assert(p.submenu == Some(items_view(v@)));
                                assert(items_view(v@) == submenu_or_none(p));
                            }
                            v
                        },
                        None => {
                            let r: Vec<MenuItem> = Vec::new();
                            proof {
                                assert(items_view(r@) =~= submenu_or_none(p));
                            }
                            r
                        },
                    }
                },
            },
        }
    }

    /// Re-angles the submenu of the item with `parent_id` as `plan` decides and
    /// stores it back (nothing happens without a ring, such an item or a submenu).
    pub fn redistribute_submenu<P: Fn(&Vec<MenuItem>) -> Vec<(String, u32)>>(&mut self, parent_id: &str, plan: &P)
        requires
            forall|v: &Vec<MenuItem>| call_requires(*plan, (v,)),
        ensures
            final(self).same_but_ring(*old(self)),
            parent_missing(*old(self), parent_id@) ==> *final(self) == *old(self),
            !parent_missing(*old(self), parent_id@) ==> exists|p: ItemView|
                #[trigger] found_in_menu(old(self).pie_menu_widget->0.menu_items@, parent_id@, p) && (p.submenu is None
                    ==> *final(self) == *old(self)) && (p.submenu is Some ==> submenu_relaid_in(
                    *old(self),
                    *final(self),
                    parent_id@,
                    submenu_or_none(p),
                    *plan,
                )),
    {
        let parent_item = match &self.pie_menu_widget {
            None => {
                return;
            },
            Some(w) => match w.menu_items.find_item_recursive(parent_id) {
                None => {
                    return;
                },
                Some(item) => item,
            },
        };
        let ghost p = parent_item@;
        proof {
            assert(found_in_menu(old(self).pie_menu_widget->0.menu_items@, parent_id@, p));
        }
        let submenu_items = match parent_item.submenu {
            None => {
                return;
            },
            Some(v) => v,
        };
        let mut temp_menu = Menu::from_items(submenu_items);
        temp_menu.redistribute_angles(plan);
        let items = temp_menu.to_items();
        let ghost laid = items@;
        let taken = self.pie_menu_widget.take();
        let mut w = match taken {
            Some(w) => w,
            None => {
                return;
            },
        };
        let ghost w0 = w;
        w.menu_items.replace_submenu_recursive(parent_id, items);
        self.pie_menu_widget = Some(w);
        proof {
            assert(found_in_menu(w0.menu_items@, parent_id@, p));
            assert(submenu_relaid(submenu_or_none(p), *plan, laid));
        }
    }

    /// Replaces the submenu of the item with `parent_id` by `items`, re-angled by
    /// `plan` and checked with `overlaps` on the ring radius of the next submenu
    /// level. On any error nothing changes.
    pub fn set_submenu_items<P: Fn(&Vec<MenuItem>) -> Vec<(String, u32)>, O: Fn(&MenuItem, &MenuItem, u32) -> bool, R: Fn(u32, u32, u32) -> u32>(
        &mut self,
        parent_id: &str,
        items: Vec<MenuItem>,
        plan: &P,
        overlaps: &O,
        by_step: &R,
    ) -> (r: Result<(), SubmenuError>)
        requires
            !parent_missing(*old(self), parent_id@) ==> (old(self).submenu_stack@.len() as u32) < u32::MAX,
            forall|v: &Vec<MenuItem>| call_requires(*plan, (v,)),
            forall|a: &MenuItem, b: &MenuItem, r: u32| call_requires(*overlaps, (a, b, r)),
            forall|m: u32, l: u32, s: u32| call_requires(*by_step, (m, l, s)),
        ensures
            r is Err ==> *final(self) == *old(self),
            r matches Err(SubmenuError::NotFound { id }) ==> id@ == parent_id@,
            r matches Err(SubmenuError::NotFound { .. }) <==> parent_missing(*old(self), parent_id@),
            r matches Err(SubmenuError::ItemOverlap { parent_id: x }) ==> x@ == parent_id@ && !parent_missing(
                *old(self),
                parent_id@,
            ) && exists|ring: u32|
                #[trigger] level_radius(*old(self), next_level(*old(self)), *by_step, ring) && submenu_overlap_reported(
                    items_view(items@),
                    *plan,
                    *overlaps,
                    ring,
                ),
            r is Err ==> r matches Err(SubmenuError::NotFound { .. }) || r matches Err(SubmenuError::ItemOverlap { .. }),
            r is Ok ==> final(self).same_but_ring(*old(self)) && match (old(self).pie_menu_widget, final(self).pie_menu_widget) {
                (Some(w0), Some(w)) => w.same_settings(w0) && w.keyboard_selection == w0.keyboard_selection
                    && w.submenu_stack == w0.submenu_stack && exists|ring: u32, laid: Seq<MenuItem>|
                    #[trigger] level_radius(*old(self), next_level(*old(self)), *by_step, ring) && #[trigger] submenu_laid_out(
                        items_view(items@),
                        *plan,
                        *overlaps,
                        ring,
                        laid,
                    ) && submenu_replaced(w0.menu_items@, w.menu_items@, parent_id@, items_view(laid)),
                _ => false,
            },
    {
        let found = match &self.pie_menu_widget {
            None => false,
            Some(w) => w.menu_items.find_item_recursive(parent_id).is_some(),
        };
        if !found {
            return Err(SubmenuError::NotFound { id: parent_id.to_owned() });
        }
        let ghost sub = items_view(items@);
        let mut temp_menu = Menu::from_items(items);
        temp_menu.redistribute_angles(plan);
        let depth = self.submenu_stack.len() as u32;
        let ring_radius = self.submenu_radius_for_level(depth + 1, by_step);
        match temp_menu.validate_all_no_overlap(ring_radius, overlaps) {
            Ok(()) => {},
            Err(e) => {
                proof {
                    assert(level_radius(*old(self), next_level(*old(self)), *by_step, ring_radius));
                    assert(plan_layout(map_of_items(sub), *plan, temp_menu@));
                    assert(layout_overlap(temp_menu@, *overlaps, ring_radius, e));
                }
                return Err(SubmenuError::ItemOverlap { parent_id: parent_id.to_owned() });
            },
        }
        let laid_items = temp_menu.to_items();
        let ghost laid = laid_items@;
        let taken = self.pie_menu_widget.take();
        let mut w = match taken {
            Some(w) => w,
            None => {
                return Err(SubmenuError::NotFound { id: parent_id.to_owned() });
            },
        };
        let ghost w0 = w;
        w.menu_items.replace_submenu_recursive(parent_id, laid_items);
        self.pie_menu_widget = Some(w);
        proof {
            assert(level_radius(*old(self), next_level(*old(self)), *by_step, ring_radius));
            assert(submenu_laid_out(sub, *plan, *overlaps, ring_radius, laid));
        }
        Ok(())
    }

    /// The ring radius for submenu `level`: its explicit radius if one was set,
    /// otherwise what `by_step` computes from the main ring's radius, the level
    /// and the step (`main + level * step`).
    pub fn submenu_radius_for_level<R: Fn(u32, u32, u32) -> u32>(&self, level: u32, by_step: &R) -> (r: u32)
        requires
            forall|m: u32, l: u32, s: u32| call_requires(*by_step, (m, l, s)),
        ensures
            match radius_override(self.submenu_radii@, level) {
                Some(x) => r == x,
                None => call_ensures(
                    *by_step,
                    (main_radius(self.pie_menu_widget), level, self.submenu_radius_step_bits),
                    r,
                ),
            },
            radius_override(self.submenu_radii@, level) is None && self.pie_menu_widget is Some ==> call_ensures(
                *by_step,
                (self.pie_menu_widget->0.radius_bits, level, self.submenu_radius_step_bits),
                r,
            ),
            radius_override(self.submenu_radii@, level) is None && self.pie_menu_widget is None ==> call_ensures(
                *by_step,
                (DEFAULT_PIE_MENU_RADIUS_BITS, level, self.submenu_radius_step_bits),
                r,
            ),
    {
        let mut i: usize = 0;
        proof {
            assert(self.submenu_radii@.skip(0) =~= self.submenu_radii@);
        }
        while i < self.submenu_radii.len()
            invariant
                i <= self.submenu_radii@.len(),
                radius_override(self.submenu_radii@, level) == radius_override(self.submenu_radii@.skip(i as int), level),
            decreases self.submenu_radii@.len() - i,
        {
            let ghost rest = self.submenu_radii@.skip(i as int);
            proof {
                assert(rest.drop_first() =~= self.submenu_radii@.skip(i + 1));
            }
            if self.submenu_radii[i].0 == level {
                return self.submenu_radii[i].1;
            }
            i = i + 1;
        }
        proof {
            assert(self.submenu_radii@.skip(i as int).len() == 0);
        }
        let main = match &self.pie_menu_widget {
            Some(w) => w.radius_bits,
            None => DEFAULT_PIE_MENU_RADIUS_BITS,
        };
        by_step(main, level, self.submenu_radius_step_bits)
    }

    /// Sets the explicit radius of submenu `level`.
    pub fn set_submenu_radius(&mut self, level: u32, radius_bits: u32)
        ensures
            radius_override(final(self).submenu_radii@, level) == Some(radius_bits),
            forall|l: u32| l != level ==> radius_override(final(self).submenu_radii@, l) == radius_override(old(self).submenu_radii@, l),
            *final(self) == (PieMenuOverlayWidgetImpl { submenu_radii: final(self).submenu_radii, ..*old(self) }),
    {
        let mut i: usize = 0;
        while i < self.submenu_radii.len() && self.submenu_radii[i].0 != level
            invariant
                i <= self.submenu_radii@.len(),
                forall|j: int| 0 <= j < i ==> (#[trigger] self.submenu_radii@[j]).0 != level,
            decreases self.submenu_radii@.len() - i,
        {
            i = i + 1;
        }
        if i < self.submenu_radii.len() {
            proof {
                lemma_override_update(self.submenu_radii@, i as int, level, radius_bits);
            }
            self.submenu_radii.set(i, (level, radius_bits));
        } else {
            proof {
                lemma_override_push(self.submenu_radii@, level, radius_bits);
            }
            self.submenu_radii.push((level, radius_bits));
        }
    }

    /// The number of open submenus.
    pub fn submenu_depth(&self) -> (d: u32)
        ensures
            d == self.submenu_stack@.len() as u32,
    {
        self.submenu_stack.len() as u32
    }

    /// The deepest submenu nesting the overlay opens.
    pub fn max_submenu_depth(&self) -> (d: u32)
        ensures
            d == MAX_SUBMENU_DEPTH,
    {
        MAX_SUBMENU_DEPTH
    }
}

proof fn lemma_override_update(radii: Seq<(u32, u32)>, i: int, level: u32, r: u32)
    requires
        0 <= i < radii.len(),
        radii[i].0 == level,
        forall|j: int| 0 <= j < i ==> (#[trigger] radii[j]).0 != level,
    ensures
        radius_override(radii.update(i, (level, r)), level) == Some(r),
        forall|l: u32| l != level ==> radius_override(radii.update(i, (level, r)), l) == radius_override(radii, l),
    decreases i,
{
    let u = radii.update(i, (level, r));
    if i > 0 {
        assert(u.drop_first() =~= radii.drop_first().update(i - 1, (level, r)));
        assert(radii[0].0 != level);
        lemma_override_update(radii.drop_first(), i - 1, level, r);
        assert forall|l: u32| l != level implies radius_override(u, l) == radius_override(radii, l) by {
            assert(u[0] == radii[0]);
            assert(radius_override(u.drop_first(), l) == radius_override(radii.drop_first(), l));
        }
    } else {
        assert forall|l: u32| l != level implies radius_override(u, l) == radius_override(radii, l) by {
            assert(u.drop_first() =~= radii.drop_first());
        }
    }
}

proof fn lemma_override_push(radii: Seq<(u32, u32)>, level: u32, r: u32)
    requires
        forall|j: int| 0 <= j < radii.len() ==> (#[trigger] radii[j]).0 != level,
    ensures
        radius_override(radii.push((level, r)), level) == Some(r),
        forall|l: u32| l != level ==> radius_override(radii.push((level, r)), l) == radius_override(radii, l),
    decreases radii.len(),
{
    let u = radii.push((level, r));
    if radii.len() > 0 {
        assert(u.drop_first() =~= radii.drop_first().push((level, r)));
        assert(radii[0].0 != level);
        lemma_override_push(radii.drop_first(), level, r);
        assert forall|l: u32| l != level implies radius_override(u, l) == radius_override(radii, l) by {
            assert(u[0] == radii[0]);
            assert(radius_override(u.drop_first(), l) == radius_override(radii.drop_first(), l));
        }
    } else {
        assert forall|l: u32| l != level implies radius_override(u, l) == radius_override(radii, l) by {
            assert(u.drop_first() =~= radii);
        }
    }
}

} // verus!
