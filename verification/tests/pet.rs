use nokk_core::assets::{AnimationSpec, AssetManifest, FrameRef, HitZone, Point, Rect};
use nokk_core::pet::{
    unix_time_seed, AMBIENT_MAX_MS, AMBIENT_MIN_MS, FIRST_AMBIENT_MAX_MS, FIRST_AMBIENT_MIN_MS, IDLE_MAX_MS,
    IDLE_MIN_MS, KNOCKDOWN_DURATION_MS, SIT_MAX_MS, SIT_MIN_MS, SLEEP_MAX_MS, SLEEP_MIN_MS,
};
use nokk_core::{AnimationId, AnimationMap, Bounds, PetBrain, PetMood};

fn manifest() -> AssetManifest {
    let mut animations = AnimationMap::new();
    for key in [
        "idle", "blink", "walk", "walk_down", "walk_up", "walk_left", "walk_right", "sit", "sleep", "happy", "poke",
        "dance",
    ] {
        animations.insert(
            key.to_string(),
            AnimationSpec { frames: vec![FrameRef { index: 0, duration_ms: 100 }], looped: true },
        );
    }
    AssetManifest {
        frame_size: 48,
        sheet_columns: 8,
        animations,
        hit_zones: vec![
            HitZone { name: "head".into(), rect: Rect { x: 14, y: 8, w: 20, h: 16 } },
            HitZone { name: "back".into(), rect: Rect { x: 10, y: 22, w: 28, h: 10 } },
            HitZone { name: "body".into(), rect: Rect { x: 9, y: 18, w: 30, h: 24 } },
        ],
        heart_spawn_points: vec![Point { x: 24, y: 10 }],
        heart_frames: vec![24],
    }
}

#[test]
fn ambient_interval_stays_in_requested_range() {
    let mut brain = PetBrain::new(1);
    let bounds = Bounds::new(800, 600, 144);
    brain.set_next_ambient_ms(1);
    brain.tick(1, bounds);
    assert!(brain.next_ambient_ms() >= AMBIENT_MIN_MS + 1);
    assert!(brain.next_ambient_ms() < AMBIENT_MAX_MS + 1);
}

#[test]
fn first_ambient_is_scheduled_quickly() {
    let brain = PetBrain::new(1);
    assert!(brain.next_ambient_ms() >= FIRST_AMBIENT_MIN_MS);
    assert!(brain.next_ambient_ms() < FIRST_AMBIENT_MAX_MS);
}

#[test]
fn first_ambient_starts_walking_and_moves_pet() {
    let mut brain = PetBrain::new(2);
    brain.place(220, 180);
    brain.set_next_ambient_ms(1);
    let bounds = Bounds::new(800, 600, 144);

    brain.tick(1, bounds);
    assert!(brain.is_walking());

    let start = (brain.snapshot().x, brain.snapshot().y);
    brain.tick(1_001, bounds);
    let end = (brain.snapshot().x, brain.snapshot().y);
    assert_ne!(start, end);
}

#[test]
fn poke_has_cooldown_and_does_not_spawn_hearts() {
    let mut brain = PetBrain::new(2);
    assert!(brain.poke(100));
    assert!(!brain.poke(200));
    assert!(brain.particles().is_empty());
}

#[test]
fn poke_keeps_knockdown_visible_long_enough() {
    let mut brain = PetBrain::new(2);
    assert!(brain.poke(100));
    assert_eq!(brain.snapshot().animation, AnimationId::Poke);
    assert_eq!(brain.action_until_ms(), 100 + KNOCKDOWN_DURATION_MS);
}

#[test]
fn stroke_does_not_interrupt_active_knockdown() {
    let mut brain = PetBrain::new(2);
    brain.knockdown(100);

    let count = brain.stroke(200, &manifest());

    assert_eq!(count, 0);
    assert!(brain.particles().is_empty());
    assert_eq!(brain.snapshot().animation, AnimationId::Poke);
    assert_eq!(brain.snapshot().mood, PetMood::Calm);
    assert_eq!(brain.action_until_ms(), 100 + KNOCKDOWN_DURATION_MS);
}

#[test]
fn set_position_clamps_to_bounds() {
    let mut brain = PetBrain::new(4);
    let bounds = Bounds::new(300, 260, 100);
    brain.set_position(999, -10, bounds);
    let snapshot = brain.snapshot();
    assert_eq!(snapshot.x, 200);
    assert_eq!(snapshot.y, 0);
}

#[test]
fn set_position_clamps_to_bounds_origin() {
    let mut brain = PetBrain::new(4);
    let bounds = Bounds::with_origin(-1920, -120, 3840, 1200, 100);
    brain.set_position(9999, -999, bounds);
    let snapshot = brain.snapshot();
    assert_eq!(snapshot.x, 1820);
    assert_eq!(snapshot.y, -120);
}

#[test]
fn begin_drag_stops_current_walk() {
    let mut brain = PetBrain::new(5);
    brain.set_next_ambient_ms(1);
    let bounds = Bounds::new(800, 600, 144);
    brain.tick(1, bounds);
    assert!(brain.is_walking());

    brain.begin_drag(100);
    assert_eq!(brain.snapshot().animation, AnimationId::Idle);
    assert!(!brain.is_walking());
}

#[test]
fn stroke_spawns_three_to_five_hearts() {
    let mut brain = PetBrain::new(3);
    let count = brain.stroke(100, &manifest());
    assert!((3..=5).contains(&count));
    assert_eq!(brain.particles().len(), count);
    assert_eq!(brain.snapshot().animation, AnimationId::Happy);
}

#[test]
fn quiet_ambient_actions_linger() {
    let bounds = Bounds::new(800, 600, 144);
    let mut saw_idle = false;
    let mut saw_sit = false;
    let mut saw_sleep = false;

    for seed in 1..2_000 {
        let mut brain = PetBrain::new(seed);
        brain.set_first_ambient(false);
        brain.set_next_ambient_ms(1);
        brain.tick(1, bounds);
        let duration = brain.action_until_ms().saturating_sub(1);

        match brain.snapshot().animation {
            AnimationId::Idle => {
                saw_idle = true;
                assert!((IDLE_MIN_MS..IDLE_MAX_MS).contains(&duration));
            }
            AnimationId::Sit => {
                saw_sit = true;
                assert!((SIT_MIN_MS..SIT_MAX_MS).contains(&duration));
            }
            AnimationId::Sleep => {
                saw_sleep = true;
                assert!((SLEEP_MIN_MS..SLEEP_MAX_MS).contains(&duration));
            }
            _ => {}
        }
    }

    assert!(saw_idle);
    assert!(saw_sit);
    assert!(saw_sleep);
}

#[test]
fn paused_pet_keeps_still() {
    let mut brain = PetBrain::from_config(7, Some((300, 200)), AnimationId::WalkLeft, PetMood::Happy, true);
    let bounds = Bounds::new(800, 600, 144);
    let before = brain.snapshot();
    brain.tick(5_000, bounds);
    brain.tick(90_000, bounds);
    assert_eq!(brain.snapshot(), before);
    brain.toggle_paused();
    assert!(!brain.snapshot().paused);
    brain.set_paused(true);
    assert!(brain.snapshot().paused);
}

#[test]
fn walking_pet_stays_in_bounds() {
    let mut brain = PetBrain::new(11);
    let bounds = Bounds::with_origin(10, 20, 400, 300, 144);
    brain.set_next_ambient_ms(1);
    let mut now = 1;
    for _ in 0..5_000 {
        brain.tick(now, bounds);
        let s = brain.snapshot();
        assert!(s.x >= 10 && s.x <= 10 + 400 - 144);
        assert!(s.y >= 20 && s.y <= 20 + 300 - 144);
        now += 200;
    }
}

#[test]
fn reset_position_goes_to_lower_left() {
    let mut brain = PetBrain::new(3);
    brain.reset_position(Bounds::new(800, 600, 144));
    assert_eq!((brain.snapshot().x, brain.snapshot().y), (24, 600 - 144 - 24));
}

#[test]
fn restored_walk_faces_its_direction() {
    let brain = PetBrain::from_config(3, None, AnimationId::WalkUp, PetMood::Calm, false);
    assert_eq!(brain.snapshot().facing, -1);
    assert_eq!((brain.snapshot().x, brain.snapshot().y), (32, 32));
    let brain = PetBrain::default();
    assert_eq!(brain.snapshot().animation, AnimationId::Idle);
}

#[test]
fn hearts_fade_away_over_ticks() {
    let mut brain = PetBrain::new(3);
    let bounds = Bounds::new(800, 600, 144);
    brain.set_paused(true);
    let count = brain.stroke(100, &manifest());
    assert!(count >= 3);
    assert!(brain.particles().iter().all(|p| p.frame == 24 && p.age_ms == 0));
    let mut now = 100;
    brain.tick(now, bounds);
    for _ in 0..20 {
        now += 250;
        brain.tick(now, bounds);
    }
    assert!(brain.particles().is_empty());
}

#[test]
fn current_frame_follows_the_animation() {
    let mut brain = PetBrain::new(3);
    let mut m = manifest();
    m.animations.insert(
        "happy".to_string(),
        AnimationSpec {
            frames: vec![FrameRef { index: 7, duration_ms: 100 }, FrameRef { index: 8, duration_ms: 100 }],
            looped: true,
        },
    );
    brain.stroke(1_000, &m);
    assert_eq!(brain.current_frame(&m, 1_000), 7);
    assert_eq!(brain.current_frame(&m, 1_150), 8);
    assert_eq!(brain.current_frame(&m, 500), 7);
}

#[test]
fn time_seed_is_available() {
    let _ = unix_time_seed();
}

#[test]
fn a_paused_pet_far_off_ticks() {
    let mut brain = PetBrain::from_config(7, Some((i32::MAX, 0)), AnimationId::Sit, PetMood::Calm, true);
    let before = brain.snapshot();
    brain.tick(100, Bounds::new(800, 600, 144));
    assert_eq!(brain.snapshot(), before);
}

#[test]
fn a_running_pet_far_off_is_brought_back() {
    let bounds = Bounds::new(800, 600, 144);
    let mut brain = PetBrain::from_config(7, Some((i32::MAX, i32::MIN)), AnimationId::WalkRight, PetMood::Calm, false);
    brain.tick(100, bounds);
    let s = brain.snapshot();
    assert!(0 <= s.x && s.x <= 800 - 144);
    assert!(0 <= s.y && s.y <= 600 - 144);
}

#[test]
fn a_walking_step_at_the_edge_of_the_integers_bounces() {
    let mut brain = PetBrain::new(5);
    brain.set_next_ambient_ms(1);
    let bounds = Bounds::with_origin(i32::MAX - 200, 0, 300, 600, 144);
    brain.tick(1, bounds);
    assert!(brain.is_walking());
    brain.place(i32::MAX - 3, 100);
    brain.tick(240, bounds);
    let s = brain.snapshot();
    assert!(i32::MAX - 200 <= s.x && s.x <= i32::MAX - 44);
}

#[test]
fn ambient_deadlines_saturate_at_the_end_of_the_clock() {
    let mut brain = PetBrain::new(1);
    brain.tick(u64::MAX - 10, Bounds::new(800, 600, 144));
    assert!(brain.is_walking());
    assert_eq!(brain.action_until_ms(), u64::MAX);
    assert_eq!(brain.next_ambient_ms(), u64::MAX);
}

#[test]
fn a_grabbed_pet_stays_idle_through_the_hold() {
    let mut brain = PetBrain::new(5);
    brain.set_next_ambient_ms(1);
    let bounds = Bounds::new(800, 600, 144);
    brain.tick(1, bounds);
    assert!(brain.is_walking());
    brain.begin_drag(100);
    let mut now = 100;
    while now < 100 + 30_000 {
        brain.tick(now, bounds);
        assert_eq!(brain.snapshot().animation, AnimationId::Idle);
        assert_eq!(brain.snapshot().mood, PetMood::Calm);
        now += 997;
    }
    assert_eq!(brain.action_until_ms(), 100 + 30_000);
}
