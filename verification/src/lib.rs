//! Pie-menu model for touch gesture interfaces.
//!
//! The crate holds the logic behind a circular menu: hex colour parsing,
//! the menu item tree, the menu collection, keyboard/controller selection,
//! the proportional distribution of flexible items between fixed ones and
//! the submenu navigation of the overlay. Rendering and input plumbing live
//! outside this crate; they hand plain values in and take plain values back.

pub mod color;
pub mod context;
pub mod controls;
pub mod error;
pub mod gestures;
pub mod hover;
pub mod item;
pub mod layout;
pub mod menu;
pub mod overlay;
pub mod selection;
pub mod widget;
pub mod text;
