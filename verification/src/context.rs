//! What a custom item widget is handed when it is built.

use vstd::prelude::*;

verus! {

/// Context provided to item widgets, letting them trigger the item's event
/// and read its metadata. It holds a callback (for instance a boxed closure),
/// so it is made fresh each time a widget is built.
pub struct MenuItemContext<F: Fn()> {
    /// The unique identifier of the menu item.
    pub id: String,
    /// The event name associated with the menu item.
    pub event: String,
    /// Callback that triggers the item's event through the pie menu's messages.
    pub trigger_event: F,
}

} // verus!
