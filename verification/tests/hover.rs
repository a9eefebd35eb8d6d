use smearor_wrot_pie_menu::hover::hover_index;
use smearor_wrot_pie_menu::item::MenuItem;
use smearor_wrot_pie_menu::widget::PieMenuWidgetImpl;

fn make_item(id: &str, angle: f32, enabled: bool) -> MenuItem {
    MenuItem::builder().id(id).label(id).icon_name("icon").angle(angle.to_bits()).event(id).enabled(enabled).build()
}

fn angle_distance(pointer: f64) -> impl Fn(&MenuItem) -> Option<u64> {
    move |item: &MenuItem| {
        let diff = (pointer - f32::from_bits(item.angle_bits) as f64).abs();
        let diff = diff.min(360.0 - diff);
        if diff.is_nan() {
            None
        } else {
            Some(diff.to_bits())
        }
    }
}

#[test]
fn hover_index_takes_the_first_nearest_enabled_item() {
    let items = vec![make_item("a", 0.0, false), make_item("b", 0.0, true), make_item("c", 0.0, true)];
    let d = |x: f64| Some(x.to_bits());
    assert_eq!(hover_index(&items, &vec![d(0.0), d(5.0), d(5.0)]), 1);
    assert_eq!(hover_index(&items, &vec![d(0.0), d(5.0), d(4.0)]), 2);
    assert_eq!(hover_index(&items, &vec![d(0.0), None, d(40.0)]), 2);
    assert_eq!(hover_index(&items, &vec![d(0.0), None, None]), -1);
    assert_eq!(hover_index(&Vec::new(), &Vec::new()), -1);
}

#[test]
fn hover_follows_the_pointer_on_the_active_ring() {
    let mut imp = PieMenuWidgetImpl::default();
    assert!(!imp.update_hover(true, &angle_distance(10.0)));
    assert_eq!(imp.hovered_item_index, -1);
    imp.menu_items.insert("a".to_string(), make_item("a", 0.0, true));
    assert!(imp.update_hover(true, &angle_distance(10.0)));
    assert_eq!(imp.hovered_item_index, 0);
    assert!(!imp.update_hover(true, &angle_distance(350.0)));
    assert!(imp.update_hover(false, &angle_distance(350.0)));
    assert_eq!(imp.hovered_item_index, -1);
    assert!(!imp.clear_hover());
    imp.set_menu_item_enabled("a", false).unwrap();
    assert!(!imp.update_hover(true, &angle_distance(0.0)));
    assert_eq!(imp.hovered_item_index, -1);
}
