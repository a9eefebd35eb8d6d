use smearor_wrot_pie_menu::overlay::{
    PieMenuOverlayWidgetImpl, DEFAULT_ACTIVATION_THRESHOLD_BITS, DEFAULT_DEACTIVATION_THRESHOLD_BITS,
    DEFAULT_SCROLL_ROTATION_STEP_BITS,
};

#[test]
fn test_default_activation_threshold() {
    let o = PieMenuOverlayWidgetImpl::new();
    assert_eq!(f64::from_bits(DEFAULT_ACTIVATION_THRESHOLD_BITS), 3.5);
    assert_eq!(f64::from_bits(o.activation_threshold()), 3.5);
}

#[test]
fn test_default_deactivation_threshold() {
    let o = PieMenuOverlayWidgetImpl::new();
    assert_eq!(f64::from_bits(DEFAULT_DEACTIVATION_THRESHOLD_BITS), 0.5);
    assert_eq!(f64::from_bits(o.deactivation_threshold()), 0.5);
}

#[test]
fn test_set_activation_threshold() {
    let mut o = PieMenuOverlayWidgetImpl::new();
    o.set_activation_threshold(2.5f64.to_bits());
    assert_eq!(f64::from_bits(o.activation_threshold()), 2.5);
}

#[test]
fn test_set_deactivation_threshold() {
    let mut o = PieMenuOverlayWidgetImpl::new();
    o.set_deactivation_threshold(0.3f64.to_bits());
    assert_eq!(f64::from_bits(o.deactivation_threshold()), 0.3);
}

#[test]
fn test_default_rotation_gesture_enabled() {
    let o = PieMenuOverlayWidgetImpl::new();
    assert!(o.rotation_gesture_enabled());
}

#[test]
fn test_set_rotation_gesture_enabled() {
    let mut o = PieMenuOverlayWidgetImpl::new();
    o.set_rotation_gesture_enabled(false);
    assert!(!o.rotation_gesture_enabled());
}

#[test]
fn test_default_markings_enabled() {
    let o = PieMenuOverlayWidgetImpl::new();
    assert!(o.markings_enabled());
}

#[test]
fn test_set_markings_enabled() {
    let mut o = PieMenuOverlayWidgetImpl::new();
    o.set_markings_enabled(false);
    assert!(!o.markings_enabled());
}

#[test]
fn test_scroll_rotation_step_default() {
    let o = PieMenuOverlayWidgetImpl::new();
    assert_eq!(f64::from_bits(DEFAULT_SCROLL_ROTATION_STEP_BITS), 5.0);
    assert_eq!(f64::from_bits(o.scroll_rotation_step()), 5.0);
}

#[test]
fn test_set_scroll_rotation_step() {
    let mut o = PieMenuOverlayWidgetImpl::new();
    o.set_scroll_rotation_step(10.0f64.to_bits());
    assert_eq!(f64::from_bits(o.scroll_rotation_step()), 10.0);
}
