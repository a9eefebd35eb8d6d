use smearor_wrot_pie_menu::error::{AddMenuItemError, SubmenuError};
use smearor_wrot_pie_menu::item::MenuItem;
use smearor_wrot_pie_menu::overlay::{PieMenuMessage, PieMenuOverlayWidgetImpl, MAX_SUBMENU_DEPTH};

fn make_item(id: &str, angle: f32) -> MenuItem {
    MenuItem::builder().id(id).label(id).icon_name("icon").angle(angle.to_bits()).event(id).build()
}

fn with_submenu(id: &str, angle: f32, submenu: Vec<MenuItem>) -> MenuItem {
    MenuItem::builder().id(id).label(id).icon_name("icon").angle(angle.to_bits()).event(id).submenu(submenu).build()
}

fn overlaps(new_item: &MenuItem, existing: &MenuItem, ring_radius_bits: u32) -> bool {
    let ring_radius = f32::from_bits(ring_radius_bits);
    let a = f32::from_bits(new_item.angle_bits).to_radians();
    let b = f32::from_bits(existing.angle_bits).to_radians();
    let distance = ((a.cos() - b.cos()).powi(2) + (a.sin() - b.sin()).powi(2)).sqrt();
    distance < (f32::from_bits(new_item.radius()) + f32::from_bits(existing.radius())) / ring_radius
}

fn even_plan(items: &Vec<MenuItem>) -> Vec<(String, u32)> {
    let total = items.len() as f32;
    items.iter().enumerate().map(|(i, item)| (item.id.clone(), (360.0 * i as f32 / total).to_bits())).collect()
}

fn by_step(main_bits: u32, level: u32, step_bits: u32) -> u32 {
    (f32::from_bits(main_bits) + level as f32 * f32::from_bits(step_bits)).to_bits()
}

fn sorted_angles(items: Vec<MenuItem>) -> Vec<f32> {
    let mut angles: Vec<f32> = items.iter().map(|i| f32::from_bits(i.angle_bits)).collect();
    angles.sort_by(|a, b| a.total_cmp(b));
    angles
}

fn names(messages: Vec<PieMenuMessage>) -> Vec<String> {
    messages
        .into_iter()
        .map(|m| match m {
            PieMenuMessage::Opened => "opened".to_string(),
            PieMenuMessage::Closed => "closed".to_string(),
            PieMenuMessage::Rotate(bits) => format!("rotate {}", f32::from_bits(bits)),
            PieMenuMessage::Event(e) => format!("event {e}"),
            PieMenuMessage::SubmenuOpened(p) => format!("submenu opened {p}"),
            PieMenuMessage::SubmenuClosed(p) => format!("submenu closed {p}"),
            _ => "other".to_string(),
        })
        .collect()
}

fn overlay_with_tree() -> PieMenuOverlayWidgetImpl {
    let mut o = PieMenuOverlayWidgetImpl::new();
    let settings = with_submenu(
        "settings",
        0.0,
        vec![make_item("audio", 0.0), with_submenu("video", 0.0, vec![make_item("res", 0.0), make_item("hz", 0.0)])],
    );
    o.add_menu_item(settings, &overlaps).unwrap();
    o.add_menu_item(make_item("quit", 180.0), &overlaps).unwrap();
    o.add_menu_item(with_submenu("empty", 90.0, Vec::new()), &overlaps).unwrap();
    o
}

#[test]
fn test_left_stick_x_default() {
    let o = PieMenuOverlayWidgetImpl::new();
    assert_eq!(f32::from_bits(o.left_stick_x_bits), 0.0);
}

#[test]
fn test_handle_left_stick_x_stored() {
    let mut o = PieMenuOverlayWidgetImpl::new();
    o.handle_left_stick_x(0.5f32.to_bits());
    assert_eq!(f32::from_bits(o.left_stick_x_bits), 0.5);
}

#[test]
fn test_handle_left_stick_x_negative() {
    let mut o = PieMenuOverlayWidgetImpl::new();
    o.handle_left_stick_x((-1.0f32).to_bits());
    assert_eq!(f32::from_bits(o.left_stick_x_bits), -1.0);
}

#[test]
fn test_handle_left_stick_full_deflection() {
    let mut o = PieMenuOverlayWidgetImpl::new();
    o.handle_left_stick_x(1.0f32.to_bits());
    assert_eq!(f32::from_bits(o.left_stick_x_bits), 1.0);
    o.handle_left_stick_x((-1.0f32).to_bits());
    assert_eq!(f32::from_bits(o.left_stick_x_bits), -1.0);
}

#[test]
fn settings_have_their_defaults_and_round_trip() {
    let mut o = PieMenuOverlayWidgetImpl::new();
    assert_eq!(f64::from_bits(o.activation_threshold()), 3.5);
    assert_eq!(f64::from_bits(o.deactivation_threshold()), 0.5);
    assert_eq!(f64::from_bits(o.scroll_rotation_step()), 5.0);
    assert!(o.rotation_gesture_enabled());
    assert!(o.markings_enabled());
    assert_eq!(f32::from_bits(o.pie_menu_radius()), 160.0);
    assert_eq!(f32::from_bits(o.pie_menu_center_radius()), 64.0);
    o.set_activation_threshold(2.5f64.to_bits());
    o.set_deactivation_threshold(0.3f64.to_bits());
    o.set_scroll_rotation_step(10.0f64.to_bits());
    o.set_rotation_gesture_enabled(false);
    o.set_markings_enabled(false);
    o.set_pie_menu_radius(200.0f32.to_bits());
    o.set_pie_menu_center_radius(50.0f32.to_bits());
    assert_eq!(f64::from_bits(o.activation_threshold()), 2.5);
    assert_eq!(f64::from_bits(o.deactivation_threshold()), 0.3);
    assert_eq!(f64::from_bits(o.scroll_rotation_step()), 10.0);
    assert!(!o.rotation_gesture_enabled());
    assert!(!o.markings_enabled());
    assert_eq!(f32::from_bits(o.pie_menu_radius()), 200.0);
    assert_eq!(f32::from_bits(o.pie_menu_center_radius()), 50.0);
}

#[test]
fn without_a_ring_the_defaults_are_reported() {
    let mut o = PieMenuOverlayWidgetImpl::default();
    assert!(o.markings_enabled());
    assert_eq!(f32::from_bits(o.pie_menu_radius()), 160.0);
    assert_eq!(f32::from_bits(o.pie_menu_center_radius()), 64.0);
    assert_eq!(o.menu_item_count(), 0);
    assert!(o.show_pie_menu().is_err());
    assert!(o.hide_pie_menu().is_err());
    assert!(!o.is_pie_menu_open());
    assert!(matches!(o.add_menu_item(make_item("a", 0.0), &overlaps), Err(AddMenuItemError::MenuWidgetNotAvailable)));
    assert!(o.remove_menu_item("a").is_err());
    assert_eq!(o.set_menu_item_enabled("a", true).unwrap_err().to_string(), "Menu item not found: a");
    assert!(matches!(o.open_submenu("a", &even_plan, &overlaps, &by_step), Err(SubmenuError::NotFound { .. })));
    assert!(o.find_nearest_item(&|_: &MenuItem| 0u32).is_none());
    assert!(o.take_messages().is_empty());
}

#[test]
fn show_and_hide_send_messages() {
    let mut o = PieMenuOverlayWidgetImpl::new();
    assert!(!o.is_pie_menu_open());
    o.show_pie_menu().unwrap();
    assert!(o.is_pie_menu_open());
    o.hide_pie_menu().unwrap();
    assert!(!o.is_pie_menu_open());
    assert_eq!(names(o.take_messages()), vec!["opened", "closed"]);
    assert!(o.take_messages().is_empty());
}

#[test]
fn submenus_open_and_close_in_order() {
    let mut o = overlay_with_tree();
    o.show_pie_menu().unwrap();
    assert_eq!(o.submenu_depth(), 0);
    o.open_submenu("settings", &even_plan, &overlaps, &by_step).unwrap();
    assert_eq!(o.submenu_depth(), 1);
    o.open_submenu("video", &even_plan, &overlaps, &by_step).unwrap();
    assert_eq!(o.submenu_depth(), 2);
    assert_eq!(sorted_angles(o.get_submenu_items("video")), vec![0.0, 180.0]);
    o.close_submenu().unwrap();
    assert_eq!(o.submenu_depth(), 1);
    o.close_submenu().unwrap();
    assert!(matches!(o.close_submenu(), Err(SubmenuError::NoSubmenuOpen)));
    assert_eq!(
        names(o.take_messages()),
        vec!["opened", "submenu opened settings", "submenu opened video", "submenu closed video", "submenu closed settings"]
    );
}

#[test]
fn open_submenu_reports_each_error() {
    let mut o = overlay_with_tree();
    match o.open_submenu("nope", &even_plan, &overlaps, &by_step) {
        Err(SubmenuError::NotFound { id }) => assert_eq!(id, "nope"),
        _ => panic!("expected NotFound"),
    }
    match o.open_submenu("quit", &even_plan, &overlaps, &by_step) {
        Err(SubmenuError::NoSubmenu { id }) => assert_eq!(id, "quit"),
        _ => panic!("expected NoSubmenu"),
    }
    match o.open_submenu("empty", &even_plan, &overlaps, &by_step) {
        Err(SubmenuError::NoSubmenu { id }) => assert_eq!(id, "empty"),
        _ => panic!("expected NoSubmenu"),
    }
    o.set_submenu_radius(1, 10.0f32.to_bits());
    match o.open_submenu("settings", &even_plan, &overlaps, &by_step) {
        Err(SubmenuError::ItemOverlap { parent_id }) => assert_eq!(parent_id, "settings"),
        _ => panic!("expected ItemOverlap"),
    }
    assert_eq!(o.submenu_depth(), 0);
    assert!(o.take_messages().is_empty());
}

#[test]
fn open_submenu_stops_at_the_deepest_level() {
    let mut o = PieMenuOverlayWidgetImpl::new();
    let d = with_submenu("d", 0.0, vec![make_item("e", 0.0)]);
    let c = with_submenu("c", 0.0, vec![d]);
    let b = with_submenu("b", 0.0, vec![c]);
    o.add_menu_item(with_submenu("a", 0.0, vec![b]), &overlaps).unwrap();
    for id in ["a", "b", "c"] {
        o.open_submenu(id, &even_plan, &overlaps, &by_step).unwrap();
    }
    assert_eq!(o.submenu_depth(), MAX_SUBMENU_DEPTH);
    assert_eq!(o.max_submenu_depth(), 3);
    match o.open_submenu("d", &even_plan, &overlaps, &by_step) {
        Err(SubmenuError::MaxDepthReached { max_depth }) => assert_eq!(max_depth, 3),
        _ => panic!("expected MaxDepthReached"),
    }
}

#[test]
fn submenu_radius_uses_overrides_then_the_step() {
    let mut o = PieMenuOverlayWidgetImpl::new();
    assert_eq!(f32::from_bits(o.submenu_radius_for_level(1, &by_step)), 240.0);
    assert_eq!(f32::from_bits(o.submenu_radius_for_level(2, &by_step)), 320.0);
    o.set_submenu_radius(2, 300.0f32.to_bits());
    o.set_submenu_radius(2, 310.0f32.to_bits());
    assert_eq!(f32::from_bits(o.submenu_radius_for_level(2, &by_step)), 310.0);
    o.set_submenu_radius_step(100.0f32.to_bits());
    assert_eq!(f32::from_bits(o.submenu_radius_for_level(1, &by_step)), 260.0);
    assert_eq!(f32::from_bits(o.submenu_radius_for_level(2, &by_step)), 310.0);
}

#[test]
fn set_and_redistribute_submenu_items() {
    let mut o = overlay_with_tree();
    o.set_submenu_items("quit", vec![make_item("x", 7.0), make_item("y", 7.0)], &even_plan, &overlaps, &by_step).unwrap();
    assert_eq!(sorted_angles(o.get_submenu_items("quit")), vec![0.0, 180.0]);
    assert!(matches!(
        o.set_submenu_items("nope", Vec::new(), &even_plan, &overlaps, &by_step),
        Err(SubmenuError::NotFound { .. })
    ));
    o.set_submenu_radius(1, 10.0f32.to_bits());
    assert!(matches!(
        o.set_submenu_items("quit", vec![make_item("x", 0.0), make_item("y", 0.0)], &even_plan, &overlaps, &by_step),
        Err(SubmenuError::ItemOverlap { .. })
    ));
    o.redistribute_submenu("video", &even_plan);
    assert_eq!(sorted_angles(o.get_submenu_items("video")), vec![0.0, 180.0]);
    assert!(o.get_submenu_items("audio").is_empty());
    assert!(o.get_submenu_items("nope").is_empty());
}

#[test]
fn confirm_selection_opens_submenus_or_sends_events() {
    let mut o = overlay_with_tree();
    o.show_pie_menu().unwrap();
    o.confirm_selection(&even_plan, &overlaps, &by_step);
    assert_eq!(names(o.take_messages()), vec!["opened"]);
    o.set_keyboard_selection("settings".to_string());
    o.confirm_selection(&even_plan, &overlaps, &by_step);
    assert_eq!(o.submenu_depth(), 1);
    o.set_keyboard_selection("audio".to_string());
    o.confirm_selection(&even_plan, &overlaps, &by_step);
    assert!(!o.is_pie_menu_open());
    assert_eq!(o.submenu_depth(), 0);
    assert_eq!(names(o.take_messages()), vec!["submenu opened settings", "closed", "event audio"]);
}

#[test]
fn confirm_selection_ignores_disabled_items() {
    let mut o = overlay_with_tree();
    o.show_pie_menu().unwrap();
    o.set_menu_item_enabled("quit", false).unwrap();
    o.set_keyboard_selection("quit".to_string());
    o.confirm_selection(&even_plan, &overlaps, &by_step);
    assert!(o.is_pie_menu_open());
    assert_eq!(names(o.take_messages()), vec!["opened"]);
}

#[test]
fn keyboard_selection_through_the_overlay() {
    let mut o = overlay_with_tree();
    o.select_first_item();
    o.cycle_selection(1);
    o.cycle_selection(-1);
    let nearest = o.find_nearest_item(&|item: &MenuItem| {
        let d = (f32::from_bits(item.angle_bits) - 170.0).abs();
        d.min(360.0 - d).to_bits()
    });
    assert_eq!(nearest, Some("quit".to_string()));
    o.select_nearest_item(&|_: &MenuItem| 0u32);
    assert_eq!(o.pie_menu_widget.as_ref().unwrap().keyboard_selection.as_deref(), Some("settings"));
    o.show_pie_menu().unwrap();
    o.select_nearest_item(&|item: &MenuItem| {
        let d = (f32::from_bits(item.angle_bits) - 95.0).abs();
        d.min(360.0 - d).to_bits()
    });
    assert_eq!(o.pie_menu_widget.as_ref().unwrap().keyboard_selection.as_deref(), Some("empty"));
}

#[test]
fn pinches_open_and_close_the_menu() {
    let mut o = PieMenuOverlayWidgetImpl::new();
    assert!(!o.zoom_scale_changed(false, false));
    assert!(!o.zoom_scale_changed(false, true));
    assert!(o.zoom_scale_changed(true, false));
    assert!(o.is_pie_menu_open());
    assert!(!o.zoom_scale_changed(true, false));
    assert!(o.zoom_scale_changed(false, true));
    assert!(!o.is_pie_menu_open());
    assert!(!o.is_zooming);
    assert_eq!(names(o.take_messages()), vec!["opened", "closed"]);
}

fn degrees_between(new_bits: u32, previous_bits: u32) -> u32 {
    (f32::from_bits(new_bits) - f32::from_bits(previous_bits)).to_bits()
}

#[test]
fn rotation_gesture_sends_rotation_deltas_while_open() {
    let mut o = PieMenuOverlayWidgetImpl::new();
    o.begin_rotation();
    assert!(!o.is_rotating);
    assert!(!o.rotation_changed(20.0f32.to_bits(), true, &degrees_between));
    o.show_pie_menu().unwrap();
    o.set_rotation(15.0f32.to_bits());
    o.begin_rotation();
    assert!(o.is_rotating);
    assert_eq!(o.initial_rotation_bits.map(f32::from_bits), Some(15.0));
    assert!(!o.rotation_changed(40.0f32.to_bits(), false, &degrees_between));
    assert!(o.rotation_changed(40.0f32.to_bits(), true, &degrees_between));
    assert_eq!(f32::from_bits(o.pie_menu_widget.as_ref().unwrap().rotation()), 40.0);
    assert_eq!(o.last_sent_rotation_bits.map(f32::from_bits), Some(40.0));
    assert!(o.rotation_changed(37.0f32.to_bits(), true, &degrees_between));
    assert_eq!(f32::from_bits(o.pie_menu_widget.as_ref().unwrap().rotation()), 37.0);
    o.end_rotation();
    assert!(!o.is_rotating);
    assert!(o.initial_rotation_bits.is_none() && o.last_sent_rotation_bits.is_none());
    assert_eq!(f32::from_bits(o.rotation_origin_bits), 15.0);
    assert_eq!(names(o.take_messages()), vec!["opened", "rotate 25", "rotate -3"]);
}

#[test]
fn clicks_close_the_menu_or_fire_the_item_under_the_pointer() {
    let mut o = overlay_with_tree();
    assert!(!o.click_pressed(true, &|_: &MenuItem| true));
    o.show_pie_menu().unwrap();
    assert!(!o.click_pressed(false, &|_: &MenuItem| false));
    assert!(o.is_pie_menu_open());
    o.set_menu_item_enabled("settings", false).unwrap();
    assert!(o.click_pressed(false, &|item: &MenuItem| item.id == "settings" || item.id == "quit"));
    assert!(!o.is_pie_menu_open());
    o.show_pie_menu().unwrap();
    assert!(o.click_pressed(true, &|_: &MenuItem| false));
    assert!(!o.is_pie_menu_open());
    assert_eq!(names(o.take_messages()), vec!["opened", "closed", "event quit", "opened", "closed"]);
}

#[test]
fn item_operations_go_to_the_ring() {
    let mut o = PieMenuOverlayWidgetImpl::new();
    o.add_menu_item_auto(make_item("a", 999.0), &even_plan, &overlaps).unwrap();
    o.add_menu_item_auto(make_item("b", 999.0), &even_plan, &overlaps).unwrap();
    assert_eq!(o.menu_item_count(), 2);
    o.remove_menu_item("a").unwrap();
    assert_eq!(o.menu_item_count(), 1);
    o.remove_all_menu_items();
    assert_eq!(o.menu_item_count(), 0);
}

#[test]
fn a_click_on_an_item_that_stays_open_only_sends_its_event() {
    let mut o = PieMenuOverlayWidgetImpl::new();
    let stay = MenuItem::builder().id("s").label("s").icon_name("i").angle(0.0f32.to_bits()).event("stay").close_on_click(false).build();
    o.add_menu_item(stay, &overlaps).unwrap();
    o.show_pie_menu().unwrap();
    assert!(o.click_pressed(false, &|item: &MenuItem| item.id == "s"));
    assert!(o.is_pie_menu_open());
    assert_eq!(names(o.take_messages()), vec!["opened", "event stay"]);
}
