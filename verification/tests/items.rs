use smearor_wrot_pie_menu::item::{default_icon_color, default_label_color, MenuItem, DEFAULT_MENU_ITEM_RADIUS_BITS};

fn make(id: &str, angle: f32) -> MenuItem {
    MenuItem::builder().id(id).label(id).icon_name("icon").angle(angle.to_bits()).event(id).build()
}

#[test]
fn test_menu_item_builder() {
    let item = MenuItem::builder()
        .id("test")
        .label("Test Item")
        .icon_name("test-icon")
        .angle(90.0f32.to_bits())
        .event("test-event")
        .build();

    assert_eq!(item.id, "test");
    assert_eq!(item.label, "Test Item");
    assert_eq!(item.icon_name, "test-icon");
    assert_eq!(f32::from_bits(item.angle_bits), 90.0);
    assert_eq!(item.event, "test-event");
    assert_eq!(item.label_color, default_label_color());
    assert_eq!(item.color, default_icon_color());
}

#[test]
fn test_menu_item_radius_default() {
    let item = MenuItem::builder().id("test").label("Test").icon_name("icon").angle(0.0f32.to_bits()).event("event").build();
    assert_eq!(item.radius(), DEFAULT_MENU_ITEM_RADIUS_BITS);
    assert_eq!(f32::from_bits(item.radius()), 40.0);
}

#[test]
fn test_menu_item_radius_custom() {
    let item = MenuItem::builder()
        .id("test")
        .label("Test")
        .icon_name("icon")
        .angle(0.0f32.to_bits())
        .radius(60.0f32.to_bits())
        .event("event")
        .build();
    assert_eq!(f32::from_bits(item.radius()), 60.0);
}

#[test]
fn test_menu_item_eq_by_id() {
    let item1 = MenuItem::builder()
        .id("same")
        .label("Label1")
        .icon_name("icon1")
        .angle(0.0f32.to_bits())
        .event("event1")
        .build();
    let item2 = MenuItem::builder()
        .id("same")
        .label("Label2")
        .icon_name("icon2")
        .angle(90.0f32.to_bits())
        .event("event2")
        .build();
    assert_eq!(item1, item2);
}

#[test]
fn items_with_other_ids_differ() {
    assert_ne!(make("a", 0.0), make("b", 0.0));
}

#[test]
fn test_menu_item_enabled_default() {
    let item = MenuItem::builder().id("test").label("Test").icon_name("icon").angle(0.0f32.to_bits()).event("event").build();
    assert!(item.enabled);
}

#[test]
fn test_menu_item_disabled() {
    let item = MenuItem::builder()
        .id("test")
        .label("Test")
        .icon_name("icon")
        .angle(0.0f32.to_bits())
        .event("event")
        .enabled(false)
        .build();
    assert!(!item.enabled);
}

#[test]
fn test_menu_item_close_on_click_default() {
    let item = MenuItem::builder().id("test").label("Test").icon_name("icon").angle(0.0f32.to_bits()).event("event").build();
    assert!(item.close_on_click);
}

#[test]
fn test_menu_item_close_on_click_false() {
    let item = MenuItem::builder()
        .id("test")
        .label("Test")
        .icon_name("icon")
        .angle(0.0f32.to_bits())
        .event("event")
        .close_on_click(false)
        .build();
    assert!(!item.close_on_click);
}

#[test]
fn test_submenu_field_default_none() {
    let item = MenuItem::builder().id("test").label("Test").icon_name("icon").angle(0.0f32.to_bits()).event("event").build();
    assert!(item.submenu.is_none());
}

#[test]
fn test_submenu_with_items() {
    let child = MenuItem::builder()
        .id("child")
        .label("Child")
        .icon_name("icon")
        .angle(0.0f32.to_bits())
        .event("child-event")
        .build();
    let parent = MenuItem::builder()
        .id("parent")
        .label("Parent")
        .icon_name("icon")
        .angle(0.0f32.to_bits())
        .event("parent-event")
        .submenu(vec![child])
        .build();
    assert!(parent.submenu.is_some());
    assert_eq!(parent.submenu.as_ref().unwrap().len(), 1);
    assert_eq!(parent.submenu.as_ref().unwrap()[0].id, "child");
}

#[test]
fn test_submenu_nested() {
    let grandchild = MenuItem::builder().id("gc").label("GC").icon_name("icon").angle(0.0f32.to_bits()).event("gc-event").build();
    let child = MenuItem::builder()
        .id("child")
        .label("Child")
        .icon_name("icon")
        .angle(0.0f32.to_bits())
        .event("child-event")
        .submenu(vec![grandchild])
        .build();
    let parent = MenuItem::builder()
        .id("parent")
        .label("Parent")
        .icon_name("icon")
        .angle(0.0f32.to_bits())
        .event("parent-event")
        .submenu(vec![child])
        .build();
    let submenu = parent.submenu.as_ref().unwrap();
    assert!(submenu[0].submenu.is_some());
    assert_eq!(submenu[0].submenu.as_ref().unwrap()[0].id, "gc");
}

#[test]
fn test_fixed_position_field_default() {
    let item = MenuItem::builder().id("test").label("Test").icon_name("icon").angle(0.0f32.to_bits()).event("event").build();
    assert!(!item.fixed_position);
}

#[test]
fn test_fixed_position_field_set() {
    let item = MenuItem::builder()
        .id("test")
        .label("Test")
        .icon_name("icon")
        .angle(0.0f32.to_bits())
        .event("event")
        .fixed_position(true)
        .build();
    assert!(item.fixed_position);
}

#[test]
fn default_colours_are_white_and_grey() {
    let white = default_label_color();
    assert_eq!(f32::from_bits(white.red), 1.0);
    assert_eq!(f32::from_bits(white.alpha), 1.0);
    let grey = default_icon_color();
    assert_eq!(f32::from_bits(grey.green), 0.467);
    assert_eq!(f32::from_bits(grey.alpha), 0.467);
}

fn tree() -> MenuItem {
    let gc = make("gc", 0.0);
    let c1 = MenuItem::builder().id("c1").label("c1").icon_name("i").angle(0).event("e1").submenu(vec![gc]).build();
    let c2 = make("c2", 90.0);
    MenuItem::builder().id("root").label("root").icon_name("i").angle(0).event("er").submenu(vec![c1, c2]).build()
}

#[test]
fn find_recursive_searches_depth_first() {
    let t = tree();
    assert_eq!(t.find_recursive("root").unwrap().id, "root");
    assert_eq!(t.find_recursive("gc").unwrap().id, "gc");
    assert_eq!(t.find_recursive("c2").unwrap().event, "c2");
    assert!(t.find_recursive("nope").is_none());
}

#[test]
fn replace_submenu_recursive_replaces_the_parents_submenu() {
    let mut t = tree();
    let new_items = vec![make("x", 0.0), make("y", 180.0)];
    assert!(t.replace_submenu_recursive("c2", &new_items));
    let c2 = t.find_recursive("c2").unwrap();
    let sub = c2.submenu.unwrap();
    assert_eq!(sub.len(), 2);
    assert_eq!(sub[0].id, "x");
    assert_eq!(sub[1].id, "y");
    assert!(!t.replace_submenu_recursive("missing", &new_items));
}

#[test]
fn copy_keeps_every_field() {
    let t = tree();
    let c = t.copy();
    assert_eq!(c.id, t.id);
    assert_eq!(c.submenu.as_ref().unwrap().len(), 2);
    assert_eq!(c.submenu.as_ref().unwrap()[0].submenu.as_ref().unwrap()[0].id, "gc");
}
