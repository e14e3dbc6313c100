//! The popup lifecycle engine, driven by an explicit clock in
//! milliseconds. Progress values are in millionths: 1_000_000 is 1.0.

use notifd_core::config::NotificationsModuleConfig;
use notifd_core::notification::{Notification, Urgency};
use notifd_core::popup::{PopupPhase, PopupState};

fn test_config() -> NotificationsModuleConfig {
    NotificationsModuleConfig {
        max_notifications: 50,
        default_timeout: 5000,
        popup_enabled: true,
        popup_max_visible: 3,
        popup_duration_ms: 5000,
        popup_animation_ms: 100, // short for fast tests
    }
}

fn make_notification(id: u32) -> Notification {
    Notification {
        id,
        app_name: format!("App{id}"),
        app_icon: String::new(),
        summary: format!("Title {id}"),
        body: format!("Body {id}"),
        actions: vec![],
        urgency: Urgency::Normal,
        expire_timeout: -1,
        timestamp: 0,
        transient: false,
    }
}

#[test]
fn entry_progress_staggered_delays_later_entries() {
    let config = test_config(); // 100 ms animation
    let mut state = PopupState::new(&config);

    state.enqueue(make_notification(1), 5000, 0);
    state.enqueue(make_notification(2), 5000, 0);

    // Shortly after both were enqueued, index 0 is past its stagger delay
    // while index 1 is still waiting.
    let p0 = state.entry_progress_staggered_at(&state.entries[0], 0, 30);
    let p1 = state.entry_progress_staggered_at(&state.entries[1], 1, 30);
    assert!(
        p0 >= p1,
        "index 0 progress ({p0}) should be >= index 1 progress ({p1})"
    );
}

// --- PopupState: enqueue ---

#[test]
fn enqueue_adds_entry_in_slide_in_phase() {
    let config = test_config();
    let mut state = PopupState::new(&config);

    state.enqueue(make_notification(1), 5000, 0);

    assert_eq!(state.entries.len(), 1);
    assert_eq!(state.entries[0].phase, PopupPhase::SlideIn);
    assert_eq!(state.entries[0].notification.id, 1);
    assert!(state.is_active());
}

#[test]
fn enqueue_replaces_notification_with_same_id() {
    let config = test_config();
    let mut state = PopupState::new(&config);

    state.enqueue(make_notification(1), 5000, 0);
    state.enqueue(make_notification(1), 5000, 10);

    assert_eq!(state.entries.len(), 1);
    assert_eq!(state.entries[0].notification.id, 1);
}

#[test]
fn enqueue_respects_max_visible() {
    let config = test_config(); // max_visible = 3
    let mut state = PopupState::new(&config);

    for i in 1..=4 {
        state.enqueue(make_notification(i), 5000, 0);
    }

    // 4 entries total, but only 3 should be non-SlideOut.
    let non_slide_out = state
        .entries
        .iter()
        .filter(|e| e.phase != PopupPhase::SlideOut)
        .count();
    assert_eq!(non_slide_out, 3);

    // The oldest (id=1) should be in SlideOut.
    let oldest = state.entries.iter().find(|e| e.notification.id == 1).unwrap();
    assert_eq!(oldest.phase, PopupPhase::SlideOut);
}

// --- PopupState: tick phase transitions ---

#[test]
fn tick_transitions_slide_in_to_display() {
    let config = test_config(); // 100 ms animation
    let mut state = PopupState::new(&config);

    state.enqueue(make_notification(1), 5000, 0);
    assert_eq!(state.entries[0].phase, PopupPhase::SlideIn);

    // Longer than the animation duration.
    let changed = state.tick(150);

    assert!(changed);
    assert_eq!(state.entries[0].phase, PopupPhase::Display);
}

#[test]
fn tick_transitions_display_to_slide_out() {
    let config = test_config();
    let mut state = PopupState::new(&config);

    state.enqueue(make_notification(1), 50, 0);

    // Past the animation: SlideIn becomes Display.
    state.tick(150);
    assert_eq!(state.entries[0].phase, PopupPhase::Display);

    // Past the display duration: Display becomes SlideOut.
    let changed = state.tick(250);

    assert!(changed);
    assert_eq!(state.entries[0].phase, PopupPhase::SlideOut);
}

#[test]
fn tick_removes_completed_slide_out_entries() {
    let config = test_config();
    let mut state = PopupState::new(&config);

    state.enqueue(make_notification(1), 10, 0);

    // tick() only transitions one phase per call (it resets the phase
    // clock), so each phase is passed with its own tick.
    // SlideIn -> Display
    state.tick(150);
    // Display -> SlideOut
    state.tick(200);
    // SlideOut complete -> removed
    state.tick(350);

    assert!(state.entries.is_empty());
    assert!(!state.is_active());
}

#[test]
fn tick_returns_false_when_no_changes() {
    let config = test_config();
    let mut state = PopupState::new(&config);

    state.enqueue(make_notification(1), 5000, 0);

    // Immediately tick: still in SlideIn, animation not done.
    let changed = state.tick(0);
    assert!(!changed);
}

// --- PopupState: dismiss ---

#[test]
fn dismiss_transitions_to_slide_out() {
    let config = test_config();
    let mut state = PopupState::new(&config);

    state.enqueue(make_notification(1), 5000, 0);
    state.dismiss(1, 10);

    assert_eq!(state.entries[0].phase, PopupPhase::SlideOut);
}

#[test]
fn dismiss_nonexistent_id_is_noop() {
    let config = test_config();
    let mut state = PopupState::new(&config);

    state.enqueue(make_notification(1), 5000, 0);
    state.dismiss(999, 10);

    assert_eq!(state.entries[0].phase, PopupPhase::SlideIn);
}

#[test]
fn dismiss_is_idempotent_and_keeps_the_exit_clock() {
    let config = test_config();
    let mut state = PopupState::new(&config);

    state.enqueue(make_notification(1), 5000, 0);
    state.dismiss(1, 10);
    assert_eq!(state.entries[0].phase, PopupPhase::SlideOut);
    assert_eq!(state.entries[0].phase_started, 10);

    // A second dismissal changes nothing, not even the phase clock.
    state.dismiss(1, 90);
    assert_eq!(state.entries[0].phase, PopupPhase::SlideOut);
    assert_eq!(state.entries[0].phase_started, 10);
}

// --- PopupState: bubble progress ---

#[test]
fn bubble_progress_is_zero_when_empty() {
    let config = test_config();
    let state = PopupState::new(&config);

    assert_eq!(state.bubble_progress_at(0), 0);
}

#[test]
fn bubble_progress_starts_near_zero_on_slide_in() {
    let config = test_config();
    let mut state = PopupState::new(&config);

    state.enqueue(make_notification(1), 5000, 0);
    let progress = state.bubble_progress_at(5);

    // Just enqueued: progress should be very small (near 0).
    assert!(progress < 300_000, "expected < 0.3, got {progress}");
}

#[test]
fn bubble_progress_is_one_during_display() {
    let config = test_config();
    let mut state = PopupState::new(&config);

    state.enqueue(make_notification(1), 5000, 0);

    // Past the animation.
    state.tick(150);

    assert_eq!(state.entries[0].phase, PopupPhase::Display);
    assert_eq!(state.bubble_progress_at(150), 1_000_000);
}

// --- target surface height (millionths of a pixel) ---

#[test]
fn target_surface_height_snaps_for_active_entries() {
    let config = test_config();
    let mut state = PopupState::new(&config);

    state.enqueue(make_notification(1), 5000, 0);
    state.enqueue(make_notification(2), 5000, 0);

    // Even right after enqueue, the surface height is the full target.
    let height = state.target_surface_height_at(0);
    let expected = (2 * 80 + 16) * 1_000_000; // 176.0 in millionths
    assert_eq!(height, expected, "expected {expected}, got {height}");
}

#[test]
fn target_surface_height_shrinks_during_all_slideout() {
    let config = test_config(); // 100 ms animation
    let mut state = PopupState::new(&config);

    state.enqueue(make_notification(1), 5000, 0);

    // SlideIn -> Display, then dismiss to force SlideOut.
    state.tick(150);
    state.dismiss(1, 150);

    // Height decreases monotonically while everything slides out.
    let mut prev_height = i64::MAX;
    for step in 1..=5 {
        let now = 150 + 15 * step;
        let height = state.target_surface_height_at(now);
        assert!(
            height <= prev_height,
            "height increased: {prev_height} -> {height}"
        );
        prev_height = height;
    }
}

#[test]
fn target_surface_height_is_zero_when_empty() {
    let config = test_config();
    let state = PopupState::new(&config);
    assert_eq!(state.target_surface_height_at(0), 0);
}

// --- Full lifecycle integration test ---

/// Mirrors the auto-resize clamping of the host's surface logic: content
/// dimensions clamped to the limits' minimum, floored at one pixel.
fn auto_resize_target(content_w: f32, content_h: f32, min_w: f32, min_h: f32) -> (f32, f32) {
    let w = content_w.max(min_w).max(1.0);
    let h = content_h.max(min_h).max(1.0);
    (w, h)
}

/// Mirrors the size-change check that gates surface resize requests.
fn should_resize(target_w: f32, target_h: f32, current_w: f32, current_h: f32) -> bool {
    (target_w - current_w).abs() > 0.5 || (target_h - current_h).abs() > 0.5
}

fn popup_max_height(entry_count: usize, bubble_progress: f32) -> f32 {
    let target = (entry_count as f32) * 80.0 + 16.0;
    target * bubble_progress
}

#[test]
fn full_notification_lifecycle() {
    let config = test_config(); // 100 ms animation
    let mut state = PopupState::new(&config);

    // 1. Empty state.
    assert!(!state.is_active());
    assert_eq!(state.bubble_progress_at(0), 0);

    // 2. Enqueue a notification with a 50 ms display duration.
    state.enqueue(make_notification(1), 50, 0);
    assert!(state.is_active());
    assert_eq!(state.entries[0].phase, PopupPhase::SlideIn);

    // 3. During SlideIn: the height should be small but clamped to 1.
    let progress = state.bubble_progress_at(0) as f32 / 1_000_000.0;
    let height = popup_max_height(1, progress);
    let (_, target_h) = auto_resize_target(500.0, height, 1.0, 1.0);
    assert!(target_h >= 1.0, "surface should be at least 1px high");
    assert!(should_resize(500.0, target_h, 1.0, 1.0), "should resize from initial 1x1");

    // 4. SlideIn completes: Display, full progress.
    state.tick(150);
    assert_eq!(state.entries[0].phase, PopupPhase::Display);
    assert_eq!(state.bubble_progress_at(150), 1_000_000);

    // At Display: full height.
    let height = popup_max_height(1, 1.0);
    let (w, h) = auto_resize_target(500.0, height, 1.0, 1.0);
    assert_eq!((w, h), (500.0, 96.0));

    // 5. Display expires: SlideOut.
    state.tick(250);
    assert_eq!(state.entries[0].phase, PopupPhase::SlideOut);

    // 6. During SlideOut: progress decreasing, never above 1.0.
    let progress = state.bubble_progress_at(260);
    assert!(progress <= 1_000_000, "progress should be <= 1.0, got {progress}");

    // 7. SlideOut completes: removed.
    state.tick(400);
    assert!(state.entries.is_empty());
    assert!(!state.is_active());
}

#[test]
fn staggered_progress_overshoots_then_lands_on_one() {
    let config = NotificationsModuleConfig {
        popup_animation_ms: 1000, // long animation to sample mid-flight
        ..test_config()
    };
    let mut state = PopupState::new(&config);
    state.enqueue(make_notification(1), 5000, 0);

    // Mid slide-in the back-eased reveal exceeds 1.0 (the bounce) ...
    let mid = state.entry_progress_staggered_at(&state.entries[0], 0, 700);
    assert!(mid > 1_000_000, "expected a bounce above 1.0, got {mid}");

    // ... but at completion it is exactly 1.0.
    let done = state.entry_progress_staggered_at(&state.entries[0], 0, 1000);
    assert_eq!(done, 1_000_000);
}

#[test]
fn popup_click_uses_the_default_action_only_when_present() {
    let config = test_config();
    let mut state = PopupState::new(&config);

    let mut with_default = make_notification(1);
    with_default.actions = vec![
        ("other".to_string(), "Other".to_string()),
        ("default".to_string(), "Open".to_string()),
    ];
    let mut without_default = make_notification(2);
    without_default.actions = vec![("other".to_string(), "Other".to_string())];
    state.enqueue(with_default, 5000, 0);
    state.enqueue(without_default, 5000, 0);

    assert!(state.has_default_action(1));
    assert!(!state.has_default_action(2));
    assert!(!state.has_default_action(999));
}

#[test]
fn entry_progress_is_monotone_during_slide_in() {
    let config = test_config(); // 100 ms animation
    let mut state = PopupState::new(&config);
    state.enqueue(make_notification(1), 5000, 0);

    let mut prev: i64 = -1;
    for step in 0..=10 {
        let now = step * 10;
        let p = state.entry_progress_at(&state.entries[0], now);
        assert!(p >= prev, "progress dipped at {now} ms: {prev} -> {p}");
        assert!(p <= 1_000_000, "progress overshot at {now} ms: {p}");
        prev = p;
    }
    assert_eq!(prev, 1_000_000);
}
