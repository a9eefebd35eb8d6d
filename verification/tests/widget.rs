use smearor_wrot_pie_menu::error::{AddMenuItemError, UpdateMenuItemError};
use smearor_wrot_pie_menu::item::MenuItem;
use smearor_wrot_pie_menu::widget::PieMenuWidgetImpl;

fn make_item(id: &str, angle: f32) -> MenuItem {
    MenuItem::builder().id(id).label(id).icon_name("icon").angle(angle.to_bits()).event(id).build()
}

fn make_disabled_item(id: &str, angle: f32) -> MenuItem {
    MenuItem::builder().id(id).label(id).icon_name("icon").angle(angle.to_bits()).event(id).enabled(false).build()
}

/// The angular distance (bits of an `f32`) of an item from `target` degrees.
fn distance_from(target: f32) -> impl Fn(&MenuItem) -> u32 {
    move |item: &MenuItem| {
        let angle = f32::from_bits(item.angle_bits).rem_euclid(360.0);
        let d = (angle - target).abs();
        d.min(360.0 - d).to_bits()
    }
}

fn overlaps(new_item: &MenuItem, existing: &MenuItem, ring_radius_bits: u32) -> bool {
    let ring_radius = f32::from_bits(ring_radius_bits);
    let a = f32::from_bits(new_item.angle_bits).to_radians();
    let b = f32::from_bits(existing.angle_bits).to_radians();
    let distance = ((a.cos() - b.cos()).powi(2) + (a.sin() - b.sin()).powi(2)).sqrt();
    distance < (f32::from_bits(new_item.radius()) + f32::from_bits(existing.radius())) / ring_radius
}

fn even_plan(items: &Vec<MenuItem>) -> Vec<(String, u32)> {
    let total = items.len() as f32;
    items.iter().enumerate().map(|(i, item)| (item.id.clone(), (360.0 * i as f32 / total).to_bits())).collect()
}

fn find_nearest_item(imp: &PieMenuWidgetImpl, target: f32) -> Option<String> {
    imp.find_nearest_item(&distance_from(target))
}

#[test]
fn test_keyboard_selection_default_none() {
    let imp = PieMenuWidgetImpl::default();
    assert!(imp.keyboard_selection().is_none());
}

#[test]
fn test_cycle_selection_empty_menu() {
    let imp = PieMenuWidgetImpl::default();
    assert!(imp.compute_next_selection(1).is_none());
}

#[test]
fn test_cycle_selection_forward() {
    let mut imp = PieMenuWidgetImpl::default();
    imp.menu_items.insert("a".to_string(), make_item("a", 0.0));
    imp.menu_items.insert("b".to_string(), make_item("b", 90.0));
    imp.menu_items.insert("c".to_string(), make_item("c", 180.0));
    assert_eq!(imp.compute_next_selection(1), Some("a".to_string()));
    imp.keyboard_selection = Some("a".to_string());
    assert_eq!(imp.compute_next_selection(1), Some("b".to_string()));
    imp.keyboard_selection = Some("b".to_string());
    assert_eq!(imp.compute_next_selection(1), Some("c".to_string()));
}

#[test]
fn test_cycle_selection_backward() {
    let mut imp = PieMenuWidgetImpl::default();
    imp.menu_items.insert("a".to_string(), make_item("a", 0.0));
    imp.menu_items.insert("b".to_string(), make_item("b", 90.0));
    imp.menu_items.insert("c".to_string(), make_item("c", 180.0));
    imp.keyboard_selection = Some("b".to_string());
    assert_eq!(imp.compute_next_selection(-1), Some("a".to_string()));
}

#[test]
fn test_cycle_selection_wraps_around() {
    let mut imp = PieMenuWidgetImpl::default();
    imp.menu_items.insert("a".to_string(), make_item("a", 0.0));
    imp.menu_items.insert("b".to_string(), make_item("b", 90.0));
    assert_eq!(imp.compute_next_selection(1), Some("a".to_string()));
    imp.keyboard_selection = Some("a".to_string());
    assert_eq!(imp.compute_next_selection(1), Some("b".to_string()));
    imp.keyboard_selection = Some("b".to_string());
    assert_eq!(imp.compute_next_selection(1), Some("a".to_string()));
    imp.keyboard_selection = Some("a".to_string());
    assert_eq!(imp.compute_next_selection(-1), Some("b".to_string()));
}

#[test]
fn test_cycle_selection_deterministic_order() {
    let mut imp = PieMenuWidgetImpl::default();
    imp.menu_items.insert("c".to_string(), make_item("c", 180.0));
    imp.menu_items.insert("a".to_string(), make_item("a", 0.0));
    imp.menu_items.insert("b".to_string(), make_item("b", 90.0));
    assert_eq!(imp.compute_next_selection(1), Some("a".to_string()));
    imp.keyboard_selection = Some("a".to_string());
    assert_eq!(imp.compute_next_selection(1), Some("b".to_string()));
    imp.keyboard_selection = Some("b".to_string());
    assert_eq!(imp.compute_next_selection(1), Some("c".to_string()));
}

#[test]
fn test_select_first_item() {
    let mut imp = PieMenuWidgetImpl::default();
    imp.menu_items.insert("c".to_string(), make_item("c", 180.0));
    imp.menu_items.insert("a".to_string(), make_item("a", 0.0));
    imp.menu_items.insert("b".to_string(), make_item("b", 90.0));
    assert_eq!(imp.compute_first_selection(), Some("a".to_string()));
}

#[test]
fn test_select_first_item_empty() {
    let imp = PieMenuWidgetImpl::default();
    assert!(imp.compute_first_selection().is_none());
}

#[test]
fn test_find_nearest_item() {
    let mut imp = PieMenuWidgetImpl::default();
    imp.menu_items.insert("a".to_string(), make_item("a", 0.0));
    imp.menu_items.insert("b".to_string(), make_item("b", 90.0));
    imp.menu_items.insert("c".to_string(), make_item("c", 180.0));
    assert_eq!(find_nearest_item(&imp, 5.0), Some("a".to_string()));
    assert_eq!(find_nearest_item(&imp, 85.0), Some("b".to_string()));
    assert_eq!(find_nearest_item(&imp, 175.0), Some("c".to_string()));
}

#[test]
fn test_find_nearest_item_empty() {
    let imp = PieMenuWidgetImpl::default();
    assert!(find_nearest_item(&imp, 0.0).is_none());
}

#[test]
fn test_find_nearest_item_wraparound() {
    let mut imp = PieMenuWidgetImpl::default();
    imp.menu_items.insert("a".to_string(), make_item("a", 10.0));
    imp.menu_items.insert("b".to_string(), make_item("b", 350.0));
    assert_eq!(find_nearest_item(&imp, 5.0), Some("a".to_string()));
    assert_eq!(find_nearest_item(&imp, 355.0), Some("b".to_string()));
}

#[test]
fn test_is_keyboard_selected_none() {
    let imp = PieMenuWidgetImpl::default();
    assert!(!imp.is_keyboard_selected("a"));
}

#[test]
fn test_is_keyboard_selected_with_id() {
    let mut imp = PieMenuWidgetImpl::default();
    imp.keyboard_selection = Some("a".to_string());
    assert!(imp.is_keyboard_selected("a"));
    assert!(!imp.is_keyboard_selected("b"));
}

#[test]
fn test_cycle_selection_skips_disabled() {
    let mut imp = PieMenuWidgetImpl::default();
    imp.menu_items.insert("a".to_string(), make_item("a", 0.0));
    imp.menu_items.insert("b".to_string(), make_disabled_item("b", 90.0));
    imp.menu_items.insert("c".to_string(), make_item("c", 180.0));
    assert_eq!(imp.compute_next_selection(1), Some("a".to_string()));
    imp.keyboard_selection = Some("a".to_string());
    assert_eq!(imp.compute_next_selection(1), Some("c".to_string()));
    imp.keyboard_selection = Some("c".to_string());
    assert_eq!(imp.compute_next_selection(1), Some("a".to_string()));
}

#[test]
fn test_select_first_item_skips_disabled() {
    let mut imp = PieMenuWidgetImpl::default();
    imp.menu_items.insert("a".to_string(), make_disabled_item("a", 0.0));
    imp.menu_items.insert("b".to_string(), make_item("b", 90.0));
    assert_eq!(imp.compute_first_selection(), Some("b".to_string()));
}

#[test]
fn test_find_nearest_item_skips_disabled() {
    let mut imp = PieMenuWidgetImpl::default();
    imp.menu_items.insert("a".to_string(), make_disabled_item("a", 0.0));
    imp.menu_items.insert("b".to_string(), make_item("b", 90.0));
    assert_eq!(find_nearest_item(&imp, 5.0), Some("b".to_string()));
}

#[test]
fn test_all_disabled_returns_none() {
    let mut imp = PieMenuWidgetImpl::default();
    imp.menu_items.insert("a".to_string(), make_disabled_item("a", 0.0));
    imp.menu_items.insert("b".to_string(), make_disabled_item("b", 90.0));
    assert!(imp.compute_next_selection(1).is_none());
    assert!(imp.compute_first_selection().is_none());
    assert!(find_nearest_item(&imp, 0.0).is_none());
}

#[test]
fn test_submenu_stack_default_empty() {
    let imp = PieMenuWidgetImpl::default();
    assert!(imp.submenu_stack.is_empty());
    assert_eq!(imp.submenu_depth(), 0);
}

#[test]
fn test_submenu_stack_push_pop() {
    let mut imp = PieMenuWidgetImpl::default();
    imp.submenu_stack.push("parent".to_string());
    assert_eq!(imp.submenu_depth(), 1);
    imp.submenu_stack.clear();
    assert_eq!(imp.submenu_depth(), 0);
}

#[test]
fn cycling_selects_and_keeps_the_selection_without_enabled_items() {
    let mut imp = PieMenuWidgetImpl::default();
    imp.cycle_selection(1);
    assert!(imp.keyboard_selection().is_none());
    imp.menu_items.insert("a".to_string(), make_item("a", 270.0));
    imp.menu_items.insert("b".to_string(), make_item("b", 30.0));
    imp.cycle_selection(1);
    assert_eq!(imp.keyboard_selection(), Some("b".to_string()));
    imp.cycle_selection(1);
    assert_eq!(imp.keyboard_selection(), Some("a".to_string()));
    imp.select_first_item();
    assert_eq!(imp.keyboard_selection(), Some("b".to_string()));
}

#[test]
fn active_ring_follows_the_innermost_submenu() {
    let mut imp = PieMenuWidgetImpl::default();
    let parent = MenuItem::builder()
        .id("p")
        .label("p")
        .icon_name("i")
        .angle(0)
        .event("p")
        .submenu(vec![make_item("s1", 0.0), make_item("s2", 90.0)])
        .build();
    imp.menu_items.insert("p".to_string(), parent);
    imp.menu_items.insert("q".to_string(), make_item("q", 180.0));
    assert_eq!(imp.active_ring_items().len(), 2);
    imp.set_submenu_stack(vec!["p".to_string()]);
    let ring: Vec<String> = imp.active_ring_items().into_iter().map(|i| i.id).collect();
    assert_eq!(ring, vec!["s1".to_string(), "s2".to_string()]);
    assert_eq!(imp.compute_first_selection(), Some("s1".to_string()));
    imp.set_submenu_stack(vec!["q".to_string()]);
    assert!(imp.active_ring_items().is_empty());
    imp.set_submenu_stack(vec!["missing".to_string()]);
    assert!(imp.active_ring_items().is_empty());
}

#[test]
fn add_menu_item_rejects_overlaps_and_removes_the_item() {
    let mut imp = PieMenuWidgetImpl::default();
    assert!(imp.add_menu_item(make_item("a", 0.0), &overlaps).is_ok());
    match imp.add_menu_item(make_item("b", 5.0), &overlaps) {
        Err(AddMenuItemError::ItemOverlap { id, overlapping_with }) => {
            assert_eq!(id, "b");
            assert_eq!(overlapping_with, "a");
        },
        _ => panic!("expected an overlap"),
    }
    assert_eq!(imp.menu_item_count(), 1);
    assert!(imp.add_menu_item(make_item("c", 180.0), &overlaps).is_ok());
    assert_eq!(imp.menu_item_count(), 2);
    assert!(imp.remove_menu_item("a").is_ok());
    assert!(imp.remove_menu_item("a").is_ok());
    assert_eq!(imp.menu_item_count(), 1);
    imp.remove_all_menu_items();
    assert_eq!(imp.menu_item_count(), 0);
}

#[test]
fn add_menu_item_on_a_zero_ring_is_never_refused() {
    let mut imp = PieMenuWidgetImpl::default();
    imp.radius_bits = 0;
    assert!(imp.add_menu_item(make_item("a", 0.0), &overlaps).is_ok());
    assert!(imp.add_menu_item(make_item("b", 0.0), &overlaps).is_ok());
    assert_eq!(imp.menu_item_count(), 2);
}

#[test]
fn set_menu_item_enabled_reports_missing_items() {
    let mut imp = PieMenuWidgetImpl::default();
    imp.menu_items.insert("a".to_string(), make_item("a", 0.0));
    assert!(imp.set_menu_item_enabled("a", false).is_ok());
    assert!(!imp.menu_items.get("a").unwrap().enabled);
    let err = imp.set_menu_item_enabled("zz", false).unwrap_err();
    assert_eq!(err.to_string(), "Menu item not found: zz");
}

#[test]
fn add_menu_item_auto_spreads_items_and_rolls_back_on_overlap() {
    let mut imp = PieMenuWidgetImpl::default();
    assert!(imp.add_menu_item_auto(make_item("a", 999.0), &even_plan, &overlaps).is_ok());
    assert!(imp.add_menu_item_auto(make_item("b", 999.0), &even_plan, &overlaps).is_ok());
    let a = f32::from_bits(imp.menu_items.get("a").unwrap().angle_bits);
    let b = f32::from_bits(imp.menu_items.get("b").unwrap().angle_bits);
    assert_eq!((a - b).abs(), 180.0);
    imp.radius_bits = 40.0f32.to_bits();
    assert!(imp.add_menu_item_auto(make_item("c", 999.0), &even_plan, &overlaps).is_err());
    assert_eq!(imp.menu_item_count(), 2);
    assert_eq!(f32::from_bits(imp.menu_items.get("a").unwrap().angle_bits), a);
    assert_eq!(f32::from_bits(imp.menu_items.get("b").unwrap().angle_bits), b);
}

#[test]
fn rotation_round_trips() {
    let mut imp = PieMenuWidgetImpl::default();
    assert_eq!(imp.rotation(), 0);
    imp.set_rotation(45.0f32.to_bits());
    assert_eq!(f32::from_bits(imp.rotation()), 45.0);
    imp.set_keyboard_selection("x".to_string());
    assert!(imp.is_keyboard_selected("x"));
}

#[test]
fn a_step_back_undoes_a_step() {
    let mut imp = PieMenuWidgetImpl::default();
    for (id, angle) in [("a", 0.0), ("b", 90.0), ("c", 180.0), ("d", 270.0)] {
        imp.menu_items.insert(id.to_string(), make_item(id, angle));
    }
    for start in ["a", "b", "c", "d"] {
        for direction in [1, -1, 2, 5] {
            imp.keyboard_selection = Some(start.to_string());
            imp.cycle_selection(direction);
            imp.cycle_selection(-direction);
            assert_eq!(imp.keyboard_selection(), Some(start.to_string()));
        }
    }
}

#[test]
fn update_menu_item_replaces_or_restores() {
    let mut imp = PieMenuWidgetImpl::default();
    imp.add_menu_item(make_item("a", 0.0), &overlaps).unwrap();
    imp.add_menu_item(make_item("b", 180.0), &overlaps).unwrap();
    match imp.update_menu_item(make_item("zz", 90.0), &overlaps) {
        Err(UpdateMenuItemError::NotFound { id }) => assert_eq!(id, "zz"),
        _ => panic!("expected NotFound"),
    }
    assert!(imp.update_menu_item(make_item("a", 90.0), &overlaps).is_ok());
    assert_eq!(f32::from_bits(imp.get_menu_item("a").unwrap().angle_bits), 90.0);
    match imp.update_menu_item(make_item("a", 179.0), &overlaps) {
        Err(UpdateMenuItemError::ItemOverlap { id, overlapping_with }) => {
            assert_eq!(id, "a");
            assert_eq!(overlapping_with, "b");
        },
        _ => panic!("expected an overlap"),
    }
    assert_eq!(f32::from_bits(imp.get_menu_item("a").unwrap().angle_bits), 90.0);
    assert!(imp.get_menu_item("zz").is_none());
}

#[test]
fn a_refused_add_keeps_the_item_stored_under_the_same_id() {
    let mut imp = PieMenuWidgetImpl::default();
    imp.add_menu_item(make_item("a", 0.0), &overlaps).unwrap();
    imp.add_menu_item(make_item("b", 180.0), &overlaps).unwrap();
    assert!(imp.add_menu_item(make_item("a", 179.0), &overlaps).is_err());
    assert_eq!(imp.menu_item_count(), 2);
    assert_eq!(f32::from_bits(imp.get_menu_item("a").unwrap().angle_bits), 0.0);
}

#[test]
fn add_menu_item_auto_keeps_a_fixed_new_item_in_place() {
    let mut imp = PieMenuWidgetImpl::default();
    let fixed = MenuItem::builder().id("f").label("f").icon_name("i").angle(77.0f32.to_bits()).event("f").fixed_position(true).build();
    imp.add_menu_item_auto(make_item("a", 0.0), &even_plan, &overlaps).unwrap();
    imp.add_menu_item_auto(fixed, &even_plan, &overlaps).unwrap();
    assert_eq!(f32::from_bits(imp.get_menu_item("f").unwrap().angle_bits), 77.0);
}
