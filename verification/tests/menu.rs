use smearor_wrot_pie_menu::error::AddMenuItemError;
use smearor_wrot_pie_menu::item::MenuItem;
use smearor_wrot_pie_menu::layout::{assign_slots, distribute_remainder, split_fixed};
use smearor_wrot_pie_menu::menu::Menu;
use std::cmp::Ordering;

fn make_item(id: &str, angle: f32) -> MenuItem {
    MenuItem::builder().id(id).label(id).icon_name("icon").angle(angle.to_bits()).event(id).build()
}

fn fixed_item(id: &str, angle: f32) -> MenuItem {
    MenuItem::builder().id(id).label("F").icon_name("icon").angle(angle.to_bits()).event("e").fixed_position(true).build()
}

/// Whether two items overlap on a ring: their centres on the unit circle are
/// closer than the sum of their radii divided by the ring radius.
fn overlaps(new_item: &MenuItem, existing: &MenuItem, ring_radius_bits: u32) -> bool {
    let ring_radius = f32::from_bits(ring_radius_bits);
    let a = f32::from_bits(new_item.angle_bits).to_radians();
    let b = f32::from_bits(existing.angle_bits).to_radians();
    let distance = ((a.cos() - b.cos()).powi(2) + (a.sin() - b.sin()).powi(2)).sqrt();
    let min_distance = (f32::from_bits(new_item.radius()) + f32::from_bits(existing.radius())) / ring_radius;
    distance < min_distance
}

/// The angles of the flexible items: spread over the whole circle without fixed
/// items, otherwise shared out between the gaps of the fixed ones in proportion
/// to their widths, the flexible items taken in the order of their ids.
fn plan(items: &Vec<MenuItem>) -> Vec<(String, u32)> {
    let (fixed, mut flexible) = split_fixed(items);
    flexible.sort_by(|&a, &b| items[a].id.cmp(&items[b].id));
    let mut out = Vec::new();
    if fixed.is_empty() {
        let total = items.len() as f32;
        for (index, item) in items.iter().enumerate() {
            out.push((item.id.clone(), (360.0 * index as f32 / total).to_bits()));
        }
        return out;
    }
    let mut fixed_angles: Vec<f32> = fixed.iter().map(|&i| f32::from_bits(items[i].angle_bits).rem_euclid(360.0)).collect();
    fixed_angles.sort_by(|a, b| a.partial_cmp(b).unwrap_or(Ordering::Equal));
    let mut segments: Vec<(f32, f32)> = Vec::new();
    for window in fixed_angles.windows(2) {
        segments.push((window[0], window[1]));
    }
    segments.push((fixed_angles[fixed_angles.len() - 1], fixed_angles[0] + 360.0));
    let total_width: f32 = segments.iter().map(|(start, end)| end - start).sum();
    if total_width == 0.0 {
        let count = flexible.len() as f32;
        for (index, &i) in flexible.iter().enumerate() {
            out.push((items[i].id.clone(), (360.0 * index as f32 / count).to_bits()));
        }
        return out;
    }
    let n = flexible.len();
    let shares: Vec<f32> = segments.iter().map(|(start, end)| n as f32 * (end - start) / total_width).collect();
    let floors: Vec<usize> = shares.iter().map(|s| s.floor() as usize).collect();
    let keys: Vec<u32> = shares.iter().map(|s| (s - s.floor()).to_bits()).collect();
    let allocated: usize = floors.iter().sum();
    let allocations = distribute_remainder(&floors, &keys, n.saturating_sub(allocated));
    for (k, (segment, place, count)) in assign_slots(&allocations).into_iter().enumerate() {
        let (start, end) = segments[segment];
        let angle = start + (end - start) * place as f32 / (count + 1) as f32;
        out.push((items[flexible[k]].id.clone(), angle.rem_euclid(360.0).to_bits()));
    }
    out
}

fn angle_of(menu: &Menu, id: &str) -> f32 {
    f32::from_bits(menu.get(id).unwrap().angle_bits)
}

fn ring(r: f32) -> u32 {
    r.to_bits()
}

#[test]
fn test_remove_all_menu_items() {
    let mut menu = Menu::new();
    menu.insert("a".to_string(), make_item("a", 0.0));
    menu.insert("b".to_string(), make_item("b", 90.0));
    assert_eq!(menu.len(), 2);
    menu.clear();
    assert_eq!(menu.len(), 0);
}

#[test]
fn test_remove_all_menu_items_empty() {
    let mut menu = Menu::new();
    menu.clear();
    assert_eq!(menu.len(), 0);
}

#[test]
fn test_menu_item_count() {
    let mut menu = Menu::new();
    assert_eq!(menu.len(), 0);
    menu.insert("a".to_string(), make_item("a", 0.0));
    assert_eq!(menu.len(), 1);
    menu.insert("b".to_string(), make_item("b", 90.0));
    assert_eq!(menu.len(), 2);
    menu.remove("a");
    assert_eq!(menu.len(), 1);
}

#[test]
fn test_set_menu_item_enabled() {
    let mut menu = Menu::new();
    menu.insert("a".to_string(), make_item("a", 0.0));
    assert!(menu.get("a").unwrap().enabled);
    {
        let mut item = menu.get("a").unwrap();
        item.enabled = false;
        menu.insert("a".to_string(), item);
    }
    assert!(!menu.get("a").unwrap().enabled);
}

#[test]
fn test_set_menu_item_enabled_not_found() {
    let menu = Menu::new();
    assert!(menu.get("nonexistent").is_none());
}

#[test]
fn test_disabled_item_skipped_in_iteration() {
    let mut menu = Menu::new();
    let mut enabled_count = 0;
    menu.insert("a".to_string(), make_item("a", 0.0));
    {
        let mut item = menu.get("a").unwrap();
        item.enabled = false;
        menu.insert("a".to_string(), item);
    }
    for item in menu.items() {
        if item.enabled {
            enabled_count += 1;
        }
    }
    assert_eq!(enabled_count, 0);
}

#[test]
fn test_validate_no_overlap_no_items() {
    let menu = Menu::new();
    let item = make_item("a", 0.0);
    assert!(menu.validate_no_overlap(&item, ring(160.0), &overlaps).is_ok());
}

#[test]
fn test_validate_no_overlap_zero_ring_radius() {
    let mut menu = Menu::new();
    menu.insert("a".to_string(), make_item("a", 0.0));
    let item = make_item("b", 0.0);
    assert!(menu.validate_no_overlap(&item, ring(0.0), &overlaps).is_ok());
}

#[test]
fn test_validate_no_overlap_self() {
    let mut menu = Menu::new();
    menu.insert("a".to_string(), make_item("a", 0.0));
    let item = make_item("a", 0.0);
    assert!(menu.validate_no_overlap(&item, ring(160.0), &overlaps).is_ok());
}

#[test]
fn test_validate_no_overlap_distant_items() {
    let mut menu = Menu::new();
    menu.insert("a".to_string(), make_item("a", 0.0));
    let item = make_item("b", 180.0);
    assert!(menu.validate_no_overlap(&item, ring(160.0), &overlaps).is_ok());
}

#[test]
fn test_validate_no_overlap_overlapping_items() {
    let mut menu = Menu::new();
    menu.insert("a".to_string(), make_item("a", 0.0));
    let item = make_item("b", 0.0);
    let result = menu.validate_no_overlap(&item, ring(160.0), &overlaps);
    assert!(result.is_err());
    match result {
        Err(AddMenuItemError::ItemOverlap { id, overlapping_with }) => {
            assert_eq!(id, "b");
            assert_eq!(overlapping_with, "a");
        },
        _ => panic!("Expected ItemOverlap error"),
    }
}

#[test]
fn test_validate_all_no_overlap() {
    let mut menu = Menu::new();
    menu.insert("a".to_string(), make_item("a", 0.0));
    menu.insert("b".to_string(), make_item("b", 120.0));
    menu.insert("c".to_string(), make_item("c", 240.0));
    assert!(menu.validate_all_no_overlap(ring(160.0), &overlaps).is_ok());
}

#[test]
fn test_validate_all_no_overlap_with_overlap() {
    let mut menu = Menu::new();
    menu.insert("a".to_string(), make_item("a", 0.0));
    menu.insert("b".to_string(), make_item("b", 0.0));
    assert!(menu.validate_all_no_overlap(ring(160.0), &overlaps).is_err());
}

#[test]
fn test_add_menu_item_rollback_on_overlap() {
    let mut menu = Menu::new();
    menu.insert("a".to_string(), make_item("a", 0.0));
    let overlapping_item = make_item("b", 0.0);
    let result = menu.validate_no_overlap(&overlapping_item, ring(160.0), &overlaps);
    assert!(result.is_err());
    menu.insert("b".to_string(), overlapping_item);
    if menu.validate_no_overlap(&menu.get("b").unwrap(), ring(160.0), &overlaps).is_err() {
        menu.remove("b");
    }
    assert_eq!(menu.len(), 1);
    assert!(menu.get("b").is_none());
}

#[test]
fn test_redistribute_angles_no_fixed() {
    let mut menu = Menu::new();
    menu.insert("a".to_string(), make_item("a", 10.0));
    menu.insert("b".to_string(), make_item("b", 20.0));
    menu.insert("c".to_string(), make_item("c", 30.0));
    menu.redistribute_angles(&plan);
    let angles: Vec<f32> = ["a", "b", "c"].iter().map(|id| angle_of(&menu, id)).collect();
    let mut sorted = angles.clone();
    sorted.sort_by(|a, b| a.partial_cmp(b).unwrap());
    assert!((sorted[0] - 0.0).abs() < 0.01);
    assert!((sorted[1] - 120.0).abs() < 0.01);
    assert!((sorted[2] - 240.0).abs() < 0.01);
}

#[test]
fn test_redistribute_angles_single_item() {
    let mut menu = Menu::new();
    menu.insert("a".to_string(), make_item("a", 42.0));
    menu.redistribute_angles(&plan);
    assert!((angle_of(&menu, "a") - 0.0).abs() < 0.01);
}

#[test]
fn test_redistribute_angles_with_fixed() {
    let mut menu = Menu::new();
    menu.insert("fixed_a".to_string(), fixed_item("fixed_a", 0.0));
    menu.insert("fixed_b".to_string(), fixed_item("fixed_b", 180.0));
    menu.insert("flex_a".to_string(), make_item("flex_a", 999.0));
    menu.insert("flex_b".to_string(), make_item("flex_b", 999.0));
    menu.redistribute_angles(&plan);
    assert!((angle_of(&menu, "fixed_a") - 0.0).abs() < 0.01);
    assert!((angle_of(&menu, "fixed_b") - 180.0).abs() < 0.01);
    let flex_a_angle = angle_of(&menu, "flex_a");
    let flex_b_angle = angle_of(&menu, "flex_b");
    assert!(flex_a_angle > 0.0 && flex_a_angle < 180.0);
    assert!(flex_b_angle > 180.0 && flex_b_angle < 360.0);
}

#[test]
fn test_redistribute_angles_all_fixed_same_angle() {
    let mut menu = Menu::new();
    menu.insert("fixed_a".to_string(), fixed_item("fixed_a", 0.0));
    menu.insert("fixed_b".to_string(), fixed_item("fixed_b", 0.0));
    menu.insert("flex".to_string(), make_item("flex", 999.0));
    menu.redistribute_angles(&plan);
    let flex_angle = angle_of(&menu, "flex");
    assert!((flex_angle - 180.0).abs() < 0.01);
}

#[test]
fn test_add_menu_item_auto_even_distribution() {
    let mut menu = Menu::new();
    menu.insert("a".to_string(), make_item("a", 999.0));
    menu.redistribute_angles(&plan);
    assert!((angle_of(&menu, "a") - 0.0).abs() < 0.01);
    menu.insert("b".to_string(), make_item("b", 999.0));
    menu.redistribute_angles(&plan);
    let angle_a = angle_of(&menu, "a");
    let angle_b = angle_of(&menu, "b");
    let diff = (angle_a - angle_b).abs().min(360.0 - (angle_a - angle_b).abs());
    assert!((diff - 180.0).abs() < 0.01);
}

#[test]
fn redistribute_keeps_fixed_angles_as_given() {
    let mut menu = Menu::new();
    menu.insert("f".to_string(), fixed_item("f", 400.0));
    menu.insert("x".to_string(), make_item("x", 3.0));
    menu.redistribute_angles(&plan);
    assert_eq!(angle_of(&menu, "f"), 400.0);
    assert!((angle_of(&menu, "x") - 220.0).abs() < 0.01);
}

#[test]
fn insert_get_remove() {
    let mut menu = Menu::new();
    assert!(menu.is_empty());
    assert!(menu.insert("a".to_string(), make_item("a", 0.0)).is_none());
    let previous = menu.insert("a".to_string(), make_item("a", 45.0)).unwrap();
    assert_eq!(f32::from_bits(previous.angle_bits), 0.0);
    assert_eq!(angle_of(&menu, "a"), 45.0);
    assert_eq!(menu.remove("a").unwrap().id, "a");
    assert!(menu.remove("a").is_none());
    assert!(menu.get("a").is_none());
}

#[test]
fn builder_and_items_round_trip() {
    let menu = Menu::builder().item(make_item("a", 0.0)).item(make_item("b", 90.0)).item(make_item("a", 10.0)).build();
    assert_eq!(menu.len(), 2);
    assert_eq!(angle_of(&menu, "a"), 10.0);
    let copy = Menu::from_items(menu.to_items());
    assert_eq!(copy.len(), 2);
    assert_eq!(angle_of(&copy, "b"), 90.0);
}

#[test]
fn update_angle_only_touches_existing_items() {
    let mut menu = Menu::new();
    menu.insert("a".to_string(), make_item("a", 0.0));
    menu.update_angle("a", 30.0f32.to_bits());
    menu.update_angle("zzz", 30.0f32.to_bits());
    assert_eq!(angle_of(&menu, "a"), 30.0);
    assert_eq!(menu.len(), 1);
}

#[test]
fn find_and_replace_in_the_tree() {
    let mut menu = Menu::new();
    let parent = MenuItem::builder().id("p").label("p").icon_name("i").angle(0).event("p").submenu(vec![make_item("c", 0.0)]).build();
    menu.insert("p".to_string(), parent);
    menu.insert("q".to_string(), make_item("q", 90.0));
    assert_eq!(menu.find_item_recursive("c").unwrap().id, "c");
    assert!(menu.find_item_recursive("nope").is_none());
    assert!(menu.replace_submenu_recursive("c", vec![make_item("d", 0.0)]));
    assert_eq!(menu.find_item_recursive("d").unwrap().id, "d");
    assert!(!menu.replace_submenu_recursive("nope", Vec::new()));
}

#[test]
fn removing_a_new_id_undoes_adding_it() {
    let mut menu = Menu::new();
    menu.insert("a".to_string(), make_item("a", 10.0));
    menu.insert("n".to_string(), make_item("n", 20.0));
    menu.remove("n");
    assert_eq!(menu.len(), 1);
    assert_eq!(angle_of(&menu, "a"), 10.0);
    assert!(menu.get("n").is_none());
}

#[test]
fn redistribution_never_moves_a_fixed_item() {
    let mut menu = Menu::new();
    menu.insert("f".to_string(), fixed_item("f", 45.0));
    menu.insert("x".to_string(), make_item("x", 3.0));
    let everything = |items: &Vec<MenuItem>| -> Vec<(String, u32)> {
        items.iter().map(|item| (item.id.clone(), 123.0f32.to_bits())).collect()
    };
    menu.redistribute_angles(&everything);
    assert_eq!(angle_of(&menu, "f"), 45.0);
    assert_eq!(angle_of(&menu, "x"), 123.0);
}
