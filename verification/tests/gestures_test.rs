// Pure logic: map pressure (0.0-1.0) to brush size
fn pressure_to_size(pressure: f32, min: f32, max: f32) -> f32 {
    min + pressure * (max - min)
}

// Pure logic: apply pinch delta to zoom level with clamping
fn apply_pinch(zoom: f32, delta: f32, min: f32, max: f32) -> f32 {
    (zoom + delta).clamp(min, max)
}

#[test]
fn test_pressure_to_brush_size_mapping() {
    assert_eq!(pressure_to_size(0.0, 1.0, 10.0), 1.0);
    assert_eq!(pressure_to_size(0.5, 1.0, 10.0), 5.5);
    assert_eq!(pressure_to_size(1.0, 1.0, 10.0), 10.0);
}

#[test]
fn test_pinch_zoom_calculation() {
    assert_eq!(apply_pinch(1.0, 0.5, 0.1, 5.0), 1.5);
    assert_eq!(apply_pinch(1.0, -0.5, 0.1, 5.0), 0.5);
    assert_eq!(apply_pinch(1.0, -2.0, 0.1, 5.0), 0.1); // clamped
    assert_eq!(apply_pinch(4.0, 2.0, 0.1, 5.0), 5.0); // clamped
}
