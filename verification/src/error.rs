//! Errors reported by the menu operations, each with its human readable message.

use vstd::prelude::*;
use vstd::string::*;
use crate::text::{decimal, push_decimal};

verus! {

/// Builds `a + b + c`.
fn join3(a: &str, b: &str, c: &str) -> (s: String)
    ensures
        s@ == a@ + b@ + c@,
{
    let mut s = String::from_str(a);
    s.append(b);
    s.append(c);
    s
}

/// Builds `a + b`.
fn join2(a: &str, b: &str) -> (s: String)
    ensures
        s@ == a@ + b@,
{
    let mut s = String::from_str(a);
    s.append(b);
    s
}

/// The message shared by every "menu widget could not be borrowed" error.
pub open spec fn widget_unavailable_message() -> Seq<char> {
    "Failed to borrow menu widget"@
}

/// The message shared by every "no item with this id" error.
pub open spec fn not_found_message(id: Seq<char>) -> Seq<char> {
    "Menu item not found: "@ + id
}

/// The message shared by every overlap error on the main ring.
pub open spec fn overlap_message(id: Seq<char>, other: Seq<char>) -> Seq<char> {
    "Menu item '"@ + id + "' overlaps with existing item '"@ + other + "'"@
}

fn widget_unavailable_string() -> (s: String)
    ensures
        s@ == widget_unavailable_message(),
{
    String::from_str("Failed to borrow menu widget")
}

fn not_found_string(id: &String) -> (s: String)
    ensures
        s@ == not_found_message(id@),
{
    join2("Menu item not found: ", id.as_str())
}

fn overlap_string(id: &String, other: &String) -> (s: String)
    ensures
        s@ == overlap_message(id@, other@),
{
    let mut s = join3("Menu item '", id.as_str(), "' overlaps with existing item '");
    s.append(other.as_str());
    s.append("'");
    s
}

/// Error returned when a menu item cannot be added.
#[derive(Debug, Clone)]
pub enum AddMenuItemError {
    /// The menu widget could not be borrowed.
    MenuWidgetNotAvailable,
    /// The new item overlaps with an existing item on the ring.
    ItemOverlap { id: String, overlapping_with: String },
}

impl AddMenuItemError {
    /// The text this error displays.
    pub open spec fn message(&self) -> Seq<char> {
        match self {
            AddMenuItemError::MenuWidgetNotAvailable => widget_unavailable_message(),
            AddMenuItemError::ItemOverlap { id, overlapping_with } => overlap_message(id@, overlapping_with@),
        }
    }

    /// Renders the error as text.
    pub fn to_string(&self) -> (s: String)
        ensures
            s@ == self.message(),
    {
        match self {
            AddMenuItemError::MenuWidgetNotAvailable => widget_unavailable_string(),
            AddMenuItemError::ItemOverlap { id, overlapping_with } => overlap_string(id, overlapping_with),
        }
    }
}

/// Error returned when a menu item cannot be removed.
#[derive(Debug, Clone)]
pub enum RemoveMenuItemError {
    /// The menu widget could not be borrowed.
    MenuWidgetNotAvailable,
}

impl RemoveMenuItemError {
    /// The text this error displays.
    pub open spec fn message(&self) -> Seq<char> {
        widget_unavailable_message()
    }

    /// Renders the error as text.
    pub fn to_string(&self) -> (s: String)
        ensures
            s@ == self.message(),
    {
        widget_unavailable_string()
    }
}

/// Error returned when setting the enabled state of a menu item that does not exist.
#[derive(Debug, Clone)]
pub enum SetMenuItemEnabledError {
    /// No menu item with the given id was found.
    NotFound { id: String },
}

impl SetMenuItemEnabledError {
    /// The text this error displays.
    pub open spec fn message(&self) -> Seq<char> {
        match self {
            SetMenuItemEnabledError::NotFound { id } => not_found_message(id@),
        }
    }

    /// Renders the error as text.
    pub fn to_string(&self) -> (s: String)
        ensures
            s@ == self.message(),
    {
        match self {
            SetMenuItemEnabledError::NotFound { id } => not_found_string(id),
        }
    }
}

/// Error returned when updating a menu item that does not exist or would overlap.
#[derive(Debug, Clone)]
pub enum UpdateMenuItemError {
    /// No menu item with the given id was found.
    NotFound { id: String },
    /// The updated item overlaps with an existing item on the ring.
    ItemOverlap { id: String, overlapping_with: String },
}

impl UpdateMenuItemError {
    /// The text this error displays.
    pub open spec fn message(&self) -> Seq<char> {
        match self {
            UpdateMenuItemError::NotFound { id } => not_found_message(id@),
            UpdateMenuItemError::ItemOverlap { id, overlapping_with } => overlap_message(id@, overlapping_with@),
        }
    }

    /// Renders the error as text.
    pub fn to_string(&self) -> (s: String)
        ensures
            s@ == self.message(),
    {
        match self {
            UpdateMenuItemError::NotFound { id } => not_found_string(id),
            UpdateMenuItemError::ItemOverlap { id, overlapping_with } => overlap_string(id, overlapping_with),
        }
    }
}

/// Error returned when a submenu operation fails.
#[derive(Debug, Clone)]
pub enum SubmenuError {
    /// No menu item with the given id was found.
    NotFound { id: String },
    /// The menu item does not have a submenu.
    NoSubmenu { id: String },
    /// The maximum submenu depth has been reached.
    MaxDepthReached { max_depth: u32 },
    /// No submenu is currently open.
    NoSubmenuOpen,
    /// Submenu items overlap after redistribution.
    ItemOverlap { parent_id: String },
}

impl SubmenuError {
    /// The text this error displays.
    pub open spec fn message(&self) -> Seq<char> {
        match self {
            SubmenuError::NotFound { id } => not_found_message(id@),
            SubmenuError::NoSubmenu { id } => "Menu item '"@ + id@ + "' has no submenu"@,
            SubmenuError::MaxDepthReached { max_depth } => "Maximum submenu depth reached: "@ + decimal(
                *max_depth as nat,
            ),
            SubmenuError::NoSubmenuOpen => "No submenu is currently open"@,
            SubmenuError::ItemOverlap { parent_id } => "Submenu items overlap after redistribution for parent '"@
                + parent_id@ + "'"@,
        }
    }

    /// Renders the error as text.
    pub fn to_string(&self) -> (s: String)
        ensures
            s@ == self.message(),
    {
        match self {
            SubmenuError::NotFound { id } => not_found_string(id),
            SubmenuError::NoSubmenu { id } => join3("Menu item '", id.as_str(), "' has no submenu"),
            SubmenuError::MaxDepthReached { max_depth } => {
                let mut s = String::from_str("Maximum submenu depth reached: ");
                push_decimal(&mut s, *max_depth);
                s
            },
            SubmenuError::NoSubmenuOpen => String::from_str("No submenu is currently open"),
            SubmenuError::ItemOverlap { parent_id } => join3(
                "Submenu items overlap after redistribution for parent '",
                parent_id.as_str(),
                "'",
            ),
        }
    }
}

/// Error returned when setting widget configuration on a menu item fails.
#[derive(Debug, Clone)]
pub enum SetWidgetConfigError {
    /// No menu item with the given id was found.
    NotFound { id: String },
}

impl SetWidgetConfigError {
    /// The text this error displays.
    pub open spec fn message(&self) -> Seq<char> {
        match self {
            SetWidgetConfigError::NotFound { id } => not_found_message(id@),
        }
    }

    /// Renders the error as text.
    pub fn to_string(&self) -> (s: String)
        ensures
            s@ == self.message(),
    {
        match self {
            SetWidgetConfigError::NotFound { id } => not_found_string(id),
        }
    }
}

/// Error returned when the pie menu cannot be shown.
#[derive(Debug, Clone)]
pub enum ShowPieMenuError {
    /// The menu widget could not be borrowed.
    MenuWidgetNotAvailable,
}

impl ShowPieMenuError {
    /// The text this error displays.
    pub open spec fn message(&self) -> Seq<char> {
        widget_unavailable_message()
    }

    /// Renders the error as text.
    pub fn to_string(&self) -> (s: String)
        ensures
            s@ == self.message(),
    {
        widget_unavailable_string()
    }
}

/// Error returned when the pie menu cannot be hidden.
#[derive(Debug, Clone)]
pub enum HidePieMenuError {
    /// The menu widget could not be borrowed.
    MenuWidgetNotAvailable,
}

impl HidePieMenuError {
    /// The text this error displays.
    pub open spec fn message(&self) -> Seq<char> {
        widget_unavailable_message()
    }

    /// Renders the error as text.
    pub fn to_string(&self) -> (s: String)
        ensures
            s@ == self.message(),
    {
        widget_unavailable_string()
    }
}

} // verus!
