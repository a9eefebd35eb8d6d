use smearor_wrot_pie_menu::color::ParseHexError;
use smearor_wrot_pie_menu::error::{
    AddMenuItemError, HidePieMenuError, RemoveMenuItemError, SetMenuItemEnabledError, SetWidgetConfigError,
    ShowPieMenuError, SubmenuError, UpdateMenuItemError,
};

#[test]
fn test_not_found_display() {
    let error = SubmenuError::NotFound { id: "test".to_string() };
    assert_eq!(error.to_string(), "Menu item not found: test");
}

#[test]
fn test_no_submenu_display() {
    let error = SubmenuError::NoSubmenu { id: "test".to_string() };
    assert_eq!(error.to_string(), "Menu item 'test' has no submenu");
}

#[test]
fn test_max_depth_reached_display() {
    let error = SubmenuError::MaxDepthReached { max_depth: 3 };
    assert_eq!(error.to_string(), "Maximum submenu depth reached: 3");
}

#[test]
fn test_no_submenu_open_display() {
    let error = SubmenuError::NoSubmenuOpen;
    assert_eq!(error.to_string(), "No submenu is currently open");
}

#[test]
fn test_item_overlap_display() {
    let error = SubmenuError::ItemOverlap {
        parent_id: "parent".to_string(),
    };
    assert_eq!(error.to_string(), "Submenu items overlap after redistribution for parent 'parent'");
}

#[test]
fn test_error_clone() {
    let error = SubmenuError::NotFound { id: "test".to_string() };
    let cloned = error.clone();
    assert_eq!(error.to_string(), cloned.to_string());
}

#[test]
fn test_set_widget_config_error_not_found_display() {
    let error = SetWidgetConfigError::NotFound { id: "test".to_string() };
    assert_eq!(error.to_string(), "Menu item not found: test");
}

#[test]
fn test_set_widget_config_error_clone() {
    let error = SetWidgetConfigError::NotFound { id: "test".to_string() };
    let cloned = error.clone();
    assert_eq!(error.to_string(), cloned.to_string());
}

#[test]
fn max_depth_message_has_every_digit() {
    let error = SubmenuError::MaxDepthReached { max_depth: 4294967295 };
    assert_eq!(error.to_string(), "Maximum submenu depth reached: 4294967295");
    let error = SubmenuError::MaxDepthReached { max_depth: 0 };
    assert_eq!(error.to_string(), "Maximum submenu depth reached: 0");
    let error = SubmenuError::MaxDepthReached { max_depth: 105 };
    assert_eq!(error.to_string(), "Maximum submenu depth reached: 105");
}

#[test]
fn add_menu_item_error_messages() {
    assert_eq!(AddMenuItemError::MenuWidgetNotAvailable.to_string(), "Failed to borrow menu widget");
    let error = AddMenuItemError::ItemOverlap {
        id: "b".to_string(),
        overlapping_with: "a".to_string(),
    };
    assert_eq!(error.to_string(), "Menu item 'b' overlaps with existing item 'a'");
}

#[test]
fn other_error_messages() {
    assert_eq!(RemoveMenuItemError::MenuWidgetNotAvailable.to_string(), "Failed to borrow menu widget");
    assert_eq!(ShowPieMenuError::MenuWidgetNotAvailable.to_string(), "Failed to borrow menu widget");
    assert_eq!(HidePieMenuError::MenuWidgetNotAvailable.to_string(), "Failed to borrow menu widget");
    let error = SetMenuItemEnabledError::NotFound { id: "x".to_string() };
    assert_eq!(error.to_string(), "Menu item not found: x");
    let error = UpdateMenuItemError::NotFound { id: "x".to_string() };
    assert_eq!(error.to_string(), "Menu item not found: x");
    let error = UpdateMenuItemError::ItemOverlap {
        id: "x".to_string(),
        overlapping_with: "y".to_string(),
    };
    assert_eq!(error.to_string(), "Menu item 'x' overlaps with existing item 'y'");
}

#[test]
fn parse_hex_error_messages() {
    assert_eq!(ParseHexError::InvalidSize.to_string(), "Invalid size");
    assert_eq!(ParseHexError::InvalidRed.to_string(), "Invalid red component");
    assert_eq!(ParseHexError::InvalidGreen.to_string(), "Invalid green component");
    assert_eq!(ParseHexError::InvalidBlue.to_string(), "Invalid blue component");
    assert_eq!(ParseHexError::InvalidAlpha.to_string(), "Invalid alpha component");
}
