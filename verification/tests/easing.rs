//! The easing curves, in millionths: 1_000_000 is a progress of 1.0.

use notifd_core::easing::{ease_in_cubic, ease_out_back, ease_out_cubic, PROGRESS_SCALE};

#[test]
fn ease_out_back_boundaries() {
    assert_eq!(ease_out_back(0), 0);
    assert_eq!(ease_out_back(PROGRESS_SCALE), PROGRESS_SCALE);
}

#[test]
fn ease_in_cubic_boundaries() {
    assert_eq!(ease_in_cubic(0), 0);
    assert_eq!(ease_in_cubic(PROGRESS_SCALE), PROGRESS_SCALE);
}

#[test]
fn ease_out_back_is_fast_start_slow_end() {
    // Halfway through, ease_out_back is past the halfway value.
    assert!(ease_out_back(500_000) > 500_000);
}

#[test]
fn ease_out_back_overshoots() {
    // ease_out_back should exceed 1.0 at some point mid-animation.
    let mut peak: i64 = 0;
    for i in 0..=100 {
        let v = ease_out_back(i * 10_000);
        if v > peak {
            peak = v;
        }
    }
    assert!(peak > PROGRESS_SCALE, "expected overshoot > 1.0, got {peak}");
}

#[test]
fn ease_out_cubic_boundaries() {
    assert_eq!(ease_out_cubic(0), 0);
    assert_eq!(ease_out_cubic(PROGRESS_SCALE), PROGRESS_SCALE);
}

#[test]
fn ease_out_cubic_no_overshoot() {
    for i in 0..=100 {
        let t = i * 10_000;
        let v = ease_out_cubic(t);
        assert!(v <= PROGRESS_SCALE, "ease_out_cubic({t}) = {v} overshoots 1.0");
    }
}

#[test]
fn ease_in_is_slow_start_fast_end() {
    // Halfway through, ease_in_cubic has not reached the halfway value.
    assert!(ease_in_cubic(500_000) < 500_000);
}

#[test]
fn ease_out_cubic_monotone_samples() {
    let mut prev: i64 = -1;
    for i in 0..=100 {
        let v = ease_out_cubic(i * 10_000);
        assert!(v >= prev, "ease_out_cubic dipped at step {i}: {prev} -> {v}");
        prev = v;
    }
}
