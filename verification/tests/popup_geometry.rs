//! The pure geometry math around the popup surface: auto-resize clamping,
//! the resize gate, and the clip height, as the host applies them to the
//! engine's progress values.

/// Simulates the auto-resize clamping: given content dimensions and
/// limits min, returns the clamped target size.
fn auto_resize_target(content_w: f32, content_h: f32, min_w: f32, min_h: f32) -> (f32, f32) {
    let w = content_w.max(min_w).max(1.0);
    let h = content_h.max(min_h).max(1.0);
    (w, h)
}

/// Simulates the size-change check that gates surface resize requests.
fn should_resize(target_w: f32, target_h: f32, current_w: f32, current_h: f32) -> bool {
    (target_w - current_w).abs() > 0.5 || (target_h - current_h).abs() > 0.5
}

fn popup_max_height(entry_count: usize, bubble_progress: f32) -> f32 {
    let target = (entry_count as f32) * 80.0 + 16.0;
    target * bubble_progress
}

#[test]
fn auto_resize_clamps_zero_content_to_min() {
    // Empty popup: content is 0x0, limits min is 1x1.
    let (w, h) = auto_resize_target(0.0, 0.0, 1.0, 1.0);
    assert_eq!((w, h), (1.0, 1.0));
}

#[test]
fn auto_resize_clamps_to_absolute_minimum_of_1() {
    // Even with min_w=0, the floor is 1.0.
    let (w, h) = auto_resize_target(0.0, 0.0, 0.0, 0.0);
    assert_eq!((w, h), (1.0, 1.0));
}

#[test]
fn auto_resize_passes_through_normal_content() {
    let (w, h) = auto_resize_target(500.0, 96.0, 1.0, 1.0);
    assert_eq!((w, h), (500.0, 96.0));
}

#[test]
fn auto_resize_uses_min_when_content_smaller() {
    let (w, h) = auto_resize_target(50.0, 10.0, 100.0, 50.0);
    assert_eq!((w, h), (100.0, 50.0));
}

#[test]
fn should_resize_detects_significant_change() {
    assert!(should_resize(500.0, 96.0, 1.0, 1.0));
    assert!(should_resize(500.0, 96.0, 499.0, 96.0));
}

#[test]
fn should_resize_ignores_subpixel_jitter() {
    assert!(!should_resize(500.0, 96.0, 500.3, 96.2));
    assert!(!should_resize(500.0, 96.0, 500.0, 96.0));
}

#[test]
fn should_resize_converges_after_request() {
    // First call detects the change; the second sees the matching size.
    let (target_w, target_h) = auto_resize_target(500.0, 96.0, 1.0, 1.0);
    let initial_current = (1.0, 1.0);

    // First: should resize.
    assert!(should_resize(target_w, target_h, initial_current.0, initial_current.1));

    // After the resize request, the window reports the new size.
    let updated_current = (target_w, target_h);

    // Second: should NOT resize (converged).
    assert!(!should_resize(target_w, target_h, updated_current.0, updated_current.1));
}

#[test]
fn popup_height_is_zero_when_progress_is_zero() {
    assert_eq!(popup_max_height(1, 0.0), 0.0);
    assert_eq!(popup_max_height(3, 0.0), 0.0);
}

#[test]
fn popup_height_is_full_when_progress_is_one() {
    assert_eq!(popup_max_height(1, 1.0), 96.0); // 1*80 + 16
    assert_eq!(popup_max_height(2, 1.0), 176.0); // 2*80 + 16
    assert_eq!(popup_max_height(3, 1.0), 256.0); // 3*80 + 16
}

#[test]
fn popup_height_scales_with_progress() {
    let full = popup_max_height(1, 1.0);
    let half = popup_max_height(1, 0.5);
    assert!((half - full * 0.5).abs() < f32::EPSILON);
}

#[test]
fn auto_resize_with_animated_popup_height() {
    // During animation the content height follows the bubble progress;
    // auto-resize clamps tiny heights to the minimum and passes through
    // larger ones.
    let min_h = 1.0;

    // Start of the animation: progress ~0, height ~0, clamped to 1.0.
    let h = popup_max_height(1, 0.0);
    let (_, clamped_h) = auto_resize_target(500.0, h, 1.0, min_h);
    assert_eq!(clamped_h, 1.0);

    // Mid animation: progress 0.5, height 48, passes through.
    let h = popup_max_height(1, 0.5);
    let (_, clamped_h) = auto_resize_target(500.0, h, 1.0, min_h);
    assert_eq!(clamped_h, 48.0);

    // Full: progress 1.0, height 96, passes through.
    let h = popup_max_height(1, 1.0);
    let (_, clamped_h) = auto_resize_target(500.0, h, 1.0, min_h);
    assert_eq!(clamped_h, 96.0);
}
