use nokk_core::assets::{AnimationSpec, AssetManifest, FrameRef, HitZone, Point, Rect};
use nokk_core::{AnimationMap, GestureEvent, GestureTracker};

fn manifest() -> AssetManifest {
    let mut animations = AnimationMap::new();
    for key in [
        "idle", "blink", "walk", "walk_down", "walk_up", "walk_left", "walk_right", "sit", "sleep", "happy", "poke",
        "dance",
    ] {
        animations.insert(
            key.to_string(),
            AnimationSpec { frames: vec![FrameRef { index: 0, duration_ms: 100 }], looped: true },
        );
    }
    AssetManifest {
        frame_size: 48,
        sheet_columns: 8,
        animations,
        hit_zones: vec![
            HitZone { name: "head".into(), rect: Rect { x: 10, y: 5, w: 28, h: 20 } },
            HitZone { name: "back".into(), rect: Rect { x: 8, y: 22, w: 32, h: 10 } },
            HitZone { name: "body".into(), rect: Rect { x: 8, y: 16, w: 32, h: 28 } },
        ],
        heart_spawn_points: vec![Point { x: 24, y: 12 }],
        heart_frames: vec![24],
    }
}

#[test]
fn stroke_requires_repeated_motion_inside_stroke_zone() {
    let manifest = manifest();
    let mut tracker = GestureTracker::default();
    let mut event = None;
    for (i, x) in [12, 19, 26, 18, 11, 22].into_iter().enumerate() {
        event = tracker.pointer_moved(x, 12, 10_000 + i as u64 * 80, &manifest);
    }
    assert_eq!(event, Some(GestureEvent::Stroked));
}

#[test]
fn outside_motion_resets_stroke() {
    let manifest = manifest();
    let mut tracker = GestureTracker::default();
    for (i, x) in [12, 19, 26].into_iter().enumerate() {
        tracker.pointer_moved(x, 12, 10_000 + i as u64 * 80, &manifest);
    }
    assert_eq!(tracker.pointer_moved(45, 45, 10_400, &manifest), None);
    assert_eq!(tracker.pointer_moved(15, 12, 10_480, &manifest), None);
}

#[test]
fn strokes_have_a_cooldown() {
    let manifest = manifest();
    let mut tracker = GestureTracker::default();
    let mut event = None;
    for (i, x) in [12, 19, 26, 18, 11, 22].into_iter().enumerate() {
        event = tracker.pointer_moved(x, 12, 10_000 + i as u64 * 80, &manifest);
    }
    assert_eq!(event, Some(GestureEvent::Stroked));
    let mut again = None;
    for (i, x) in [12, 19, 26, 18, 11, 22, 30].into_iter().enumerate() {
        again = again.or(tracker.pointer_moved(x, 12, 10_500 + i as u64 * 80, &manifest));
    }
    assert_eq!(again, None);
}

#[test]
fn straight_motion_is_not_a_stroke() {
    let manifest = manifest();
    let mut tracker = GestureTracker::default();
    let mut event = None;
    for (i, x) in [11, 14, 17, 20, 23, 26, 29].into_iter().enumerate() {
        event = event.or(tracker.pointer_moved(x, 12, 10_000 + i as u64 * 80, &manifest));
    }
    assert_eq!(event, None);
}

#[test]
fn short_wiggle_is_not_a_stroke() {
    let manifest = manifest();
    let mut tracker = GestureTracker::default();
    let mut event = None;
    // six samples with reversals, but only 20 px of path
    for (i, x) in [12, 16, 12, 16, 12, 16].into_iter().enumerate() {
        event = event.or(tracker.pointer_moved(x, 12, 10_000 + i as u64 * 80, &manifest));
    }
    assert_eq!(event, None);
}

#[test]
fn old_samples_leave_the_window() {
    let manifest = manifest();
    let mut tracker = GestureTracker::default();
    let mut event = None;
    for (i, x) in [12, 19, 26].into_iter().enumerate() {
        tracker.pointer_moved(x, 12, 10_000 + i as u64 * 80, &manifest);
    }
    // a second later the first samples are gone: three more are not enough
    for (i, x) in [18, 11, 22].into_iter().enumerate() {
        event = event.or(tracker.pointer_moved(x, 12, 11_100 + i as u64 * 80, &manifest));
    }
    assert_eq!(event, None);
}

#[test]
fn a_stroke_forgets_the_motion_before_it() {
    let manifest = manifest();
    let mut tracker = GestureTracker::default();
    let mut event = None;
    for (i, x) in [12, 19, 26, 18, 11, 22].into_iter().enumerate() {
        event = tracker.pointer_moved(x, 12, 10_000 + i as u64 * 80, &manifest);
    }
    assert_eq!(event, Some(GestureEvent::Stroked));
    // well after the cooldown, five more motions are not enough for another stroke
    for (i, x) in [12, 19, 26, 18, 11].into_iter().enumerate() {
        assert_eq!(tracker.pointer_moved(x, 12, 12_000 + i as u64 * 80, &manifest), None);
    }
    assert_eq!(tracker.pointer_moved(22, 12, 12_400, &manifest), Some(GestureEvent::Stroked));
}

#[test]
fn a_fresh_tracker_waits_for_the_cooldown() {
    let manifest = manifest();
    let mut tracker = GestureTracker::default();
    for (i, x) in [12, 19, 26, 18, 11, 22, 30, 12].into_iter().enumerate() {
        assert_eq!(tracker.pointer_moved(x, 12, 100 + i as u64 * 80, &manifest), None);
    }
}
