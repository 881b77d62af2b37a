use ray_kernel::util::clamp;

#[test]
fn test_clamp() {
    assert_eq!(clamp(256, 0, 255), 255);
    assert_eq!(clamp(-1, 0, 255), 0);
    assert_eq!(clamp(55, 0, 255), 55);
}

#[test]
fn clamp_keeps_extremes_in_range() {
    assert_eq!(clamp(i32::MAX, 0, 255), 255);
    assert_eq!(clamp(i32::MIN, 0, 255), 0);
    assert_eq!(clamp(0, 0, 255), 0);
    assert_eq!(clamp(255, 0, 255), 255);
}

#[test]
fn clamp_scales_pixel_components_into_range() {
    assert_eq!(clamp((0.25f64 * 255.0) as i32, 0, 255), 63);
    assert_eq!(clamp((-1.25f64 * 255.0) as i32, 0, 255), 0);
    assert_eq!(clamp((1.25f64 * 255.0) as i32, 0, 255), 255);
}

#[test]
fn clamp_tests_max_first_on_crossed_interval() {
    assert_eq!(clamp(5, 10, 0), 0);
    assert_eq!(clamp(-20, 10, 0), 10);
}
