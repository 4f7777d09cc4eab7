use nokk_core::assets::{AnimationSpec, AssetManifest, FrameRef, HitZone, Point, Rect};
use nokk_core::desktop::{
    apply_tray_command, bounds_from_output, buffer_layout, high_word, local_point, low_word, margins_for, menu_command,
    next_buffer_index, parse_command, parse_logical_size, pet_size, poke_if_body, resized_bounds, saved_config,
    start_position, surface_size, tray_icon_argb, write_tip, BufferLayout, BufferSizeError, Command, PointerState,
    TrayCommand, MENU_PAUSE, MENU_QUIT, MENU_RESET,
};
use nokk_core::pet::KNOCKDOWN_DURATION_MS;
use nokk_core::{AnimationId, AnimationMap, Bounds, GestureTracker, PetBrain, PetMood};

fn manifest() -> AssetManifest {
    let mut animations = AnimationMap::new();
    for key in [
        "idle", "blink", "walk", "walk_down", "walk_up", "walk_left", "walk_right", "sit", "sleep", "happy", "poke",
        "dance",
    ] {
        animations.insert(
            key.to_string(),
            AnimationSpec { frames: vec![FrameRef { index: 0, duration_ms: 100 }], looped: true },
        );
    }
    AssetManifest {
        frame_size: 48,
        sheet_columns: 8,
        animations,
        hit_zones: vec![
            HitZone { name: "head".into(), rect: Rect { x: 14, y: 8, w: 20, h: 16 } },
            HitZone { name: "back".into(), rect: Rect { x: 10, y: 22, w: 28, h: 10 } },
            HitZone { name: "body".into(), rect: Rect { x: 9, y: 18, w: 30, h: 24 } },
        ],
        heart_spawn_points: vec![Point { x: 24, y: 10 }],
        heart_frames: vec![24],
    }
}

#[test]
fn commands_follow_the_first_argument() {
    assert_eq!(parse_command(None), Command::Desktop);
    assert_eq!(parse_command(Some("desktop")), Command::Desktop);
    assert_eq!(parse_command(Some("console")), Command::Console);
    assert_eq!(parse_command(Some("--help")), Command::Help);
    assert_eq!(parse_command(Some("-h")), Command::Help);
    assert_eq!(parse_command(Some("dance")), Command::Unknown("dance".to_string()));
}

#[test]
fn message_words_split_a_parameter() {
    assert_eq!(low_word(0x1234_5678), 0x5678);
    assert_eq!(high_word(0x1234_5678), 0x1234);
    assert_eq!(low_word(0xffff_0000), 0);
    assert_eq!(high_word(0x0000_ffff), 0);
}

#[test]
fn tooltip_is_copied_as_far_as_it_fits() {
    let mut buffer = [7u16; 4];
    write_tip(&mut buffer, &[1, 2]);
    assert_eq!(buffer, [1, 2, 7, 7]);
    let mut short = [0u16; 2];
    write_tip(&mut short, &[5, 6, 7]);
    assert_eq!(short, [5, 6]);
}

#[test]
fn surface_leaves_room_around_the_pet() {
    assert_eq!(pet_size(48, 2), 96);
    assert_eq!(surface_size(48, 2), 96 + 36 + 24);
    assert_eq!(surface_size(48, 1), 108);
}

#[test]
fn start_position_replaces_the_untouched_default() {
    assert_eq!(start_position(Some((300, 400)), 96), (300, 400));
    assert_eq!(start_position(Some((32, 32)), 96), (48, 1080 - 96 - 72));
    assert_eq!(start_position(None, 96), (48, 912));
    assert_eq!(start_position(None, 1000), (48, 24));
}

#[test]
fn margins_never_go_negative() {
    let mut brain = PetBrain::new(1);
    brain.place(-5, 40);
    assert_eq!(margins_for(brain.snapshot()), (40, 0, 0, 0));
    brain.place(12, -3);
    assert_eq!(margins_for(brain.snapshot()), (0, 0, 0, 12));
}

#[test]
fn local_point_removes_padding_and_scale() {
    assert_eq!(local_point(18, 18, 2), (0, 0));
    assert_eq!(local_point(58, 38, 2), (20, 10));
    // rounds towards zero, as integer division does
    assert_eq!(local_point(15, 14, 2), (-1, -2));
    assert_eq!(local_point(17, 18, 4), (0, 0));
}

#[test]
fn press_on_body_starts_a_drag_and_still_release_pokes() {
    let m = manifest();
    let mut brain = PetBrain::new(3);
    let mut pointer = PointerState::new();
    pointer.hover(18 + 20 * 2, 18 + 30 * 2);
    pointer.press(&mut brain, &m, 2, 1_000);
    let drag = pointer.drag.expect("press on the body starts a drag");
    assert!(!drag.moved);
    pointer.release(&mut brain, 1_100);
    assert!(pointer.drag.is_none());
    assert_eq!(brain.snapshot().animation, AnimationId::Poke);
    assert!(brain.is_knockdown_active(1_100 + KNOCKDOWN_DURATION_MS - 1));
}

#[test]
fn press_outside_body_does_nothing() {
    let m = manifest();
    let mut brain = PetBrain::new(3);
    let before = brain.snapshot();
    let mut pointer = PointerState::new();
    pointer.hover(18, 18);
    pointer.press(&mut brain, &m, 2, 1_000);
    assert!(pointer.drag.is_none());
    assert_eq!(brain.snapshot(), before);
    pointer.release(&mut brain, 1_100);
    assert_eq!(brain.snapshot(), before);
}

#[test]
fn dragging_moves_the_pet_and_far_drags_knock_it_down() {
    let m = manifest();
    let bounds = Bounds::new(1920, 1080, 96);
    let mut brain = PetBrain::new(3);
    brain.place(100, 100);
    let mut pointer = PointerState::new();
    assert!(!pointer.drag_to(&mut brain, 80, 80, bounds));
    pointer.hover(60, 80);
    pointer.press(&mut brain, &m, 2, 1_000);
    assert!(pointer.drag_to(&mut brain, 62, 81, bounds));
    assert_eq!((brain.snapshot().x, brain.snapshot().y), (102, 101));
    assert!(!pointer.drag.unwrap().moved);
    assert!(pointer.drag_to(&mut brain, 70, 80, bounds));
    assert_eq!((brain.snapshot().x, brain.snapshot().y), (112, 101));
    assert!(pointer.drag.unwrap().moved);
    pointer.release(&mut brain, 2_000);
    assert_eq!(brain.snapshot().animation, AnimationId::Poke);
    assert_eq!(brain.snapshot().mood, PetMood::Calm);
    assert!(brain.is_knockdown_active(2_000 + KNOCKDOWN_DURATION_MS - 1));
    assert!(!brain.is_knockdown_active(2_000 + KNOCKDOWN_DURATION_MS));
}

#[test]
fn drag_is_clamped_to_the_bounds() {
    let m = manifest();
    let bounds = Bounds::new(300, 200, 96);
    let mut brain = PetBrain::new(3);
    brain.place(10, 10);
    let mut pointer = PointerState::new();
    pointer.hover(60, 80);
    pointer.press(&mut brain, &m, 2, 0);
    pointer.drag_to(&mut brain, -500, 5_000, bounds);
    assert_eq!((brain.snapshot().x, brain.snapshot().y), (0, 104));
}

#[test]
fn output_size_is_read_from_the_description() {
    let text = "XdgInfo { name: \"DP-1\", logical_size: Some((2560, 1440)), position: (0, 0) }";
    assert_eq!(parse_logical_size(text), Some((2560, 1440)));
    assert_eq!(parse_logical_size("logical_size: Some(( 800 ,600 ))"), Some((800, 600)));
    assert_eq!(parse_logical_size("logical_size: Some((+7, -3))"), Some((7, -3)));
    assert_eq!(parse_logical_size("logical_size: Some((1, 2, 3))"), Some((1, 2)));
    assert_eq!(parse_logical_size("logical_size: None"), None);
    assert_eq!(parse_logical_size("logical_size: Some((1920))"), None);
    assert_eq!(parse_logical_size("logical_size: Some((1920, 10a))"), None);
    assert_eq!(parse_logical_size("logical_size: Some((99999999999, 10))"), None);
    assert_eq!(parse_logical_size("logical_size: Some((2147483647, -2147483648))"), Some((i32::MAX, i32::MIN)));
    assert_eq!(parse_logical_size("logical_size: Some((1920, 1080)"), None);
    assert_eq!(parse_logical_size(""), None);
}

#[test]
fn output_hint_resizes_bounds_to_at_least_the_pet() {
    let bounds = Bounds::new(1920, 1080, 96);
    let wide = bounds_from_output(bounds, "logical_size: Some((2560, 50))");
    assert_eq!(wide, Bounds::new(2560, 96, 96));
    assert_eq!(bounds_from_output(bounds, "no size here"), bounds);
    assert_eq!(resized_bounds(bounds, 10, 2000), Bounds::new(96, 2000, 96));
}

#[test]
fn menu_identifiers_name_commands() {
    assert_eq!(menu_command(MENU_PAUSE), Some(TrayCommand::TogglePause));
    assert_eq!(menu_command(MENU_RESET), Some(TrayCommand::ResetPosition));
    assert_eq!(menu_command(MENU_QUIT), Some(TrayCommand::Quit));
    assert_eq!(menu_command(7), None);
}

#[test]
fn tray_commands_act_on_the_pet() {
    let bounds = Bounds::new(1920, 1080, 96);
    let mut brain = PetBrain::new(5);
    assert!(!apply_tray_command(&mut brain, TrayCommand::TogglePause, bounds));
    assert!(brain.snapshot().paused);
    brain.place(700, 300);
    assert!(!apply_tray_command(&mut brain, TrayCommand::ResetPosition, bounds));
    assert_eq!((brain.snapshot().x, brain.snapshot().y), (24, 1080 - 96 - 24));
    assert!(apply_tray_command(&mut brain, TrayCommand::Quit, bounds));
    assert!(brain.snapshot().paused);
}

#[test]
fn poke_on_the_body_only() {
    let m = manifest();
    let mut brain = PetBrain::new(5);
    assert!(!poke_if_body(&mut brain, &m, 18, 18, 1, 500));
    assert_eq!(brain.snapshot().animation, AnimationId::Idle);
    assert!(poke_if_body(&mut brain, &m, 18 + 20, 18 + 30, 1, 500));
    assert_eq!(brain.snapshot().animation, AnimationId::Poke);
}

#[test]
fn stroke_on_motion_strokes_after_a_rubbing_motion() {
    let m = manifest();
    let mut brain = PetBrain::new(5);
    let mut gesture = GestureTracker::default();
    let mut stroked = false;
    let path = [(16, 10), (30, 10), (16, 10), (30, 10), (16, 10), (30, 10)];
    for (i, (x, y)) in path.iter().enumerate() {
        let t = 10_000 + i as u64 * 50;
        stroked |= nokk_core::desktop::stroke_on_motion(&mut gesture, &mut brain, &m, 18 + x, 18 + y, 1, t, t);
    }
    assert!(stroked);
    assert_eq!(brain.snapshot().animation, AnimationId::Happy);
    assert!(brain.particles().len() >= 3);
}

#[test]
fn saved_config_records_the_pet() {
    let mut brain = PetBrain::new(5);
    brain.place(70, 80);
    brain.toggle_paused();
    let config = saved_config(brain.snapshot(), 3);
    assert_eq!(config.position, Some((70, 80)));
    assert_eq!(config.scale, 3);
    assert!(config.paused);
    assert_eq!(config.monitor, None);
    assert_eq!(config.last_pose, AnimationId::Idle);
}

#[test]
fn buffers_are_used_round_robin() {
    assert_eq!(next_buffer_index(0, 3), 1);
    assert_eq!(next_buffer_index(2, 3), 0);
    assert_eq!(next_buffer_index(0, 1), 0);
}

#[test]
fn buffer_layout_checks_sizes_in_order() {
    assert_eq!(buffer_layout(10, 20), Ok(BufferLayout { size: 800, stride: 40 }));
    assert_eq!(buffer_layout(70_000, 70_000), Err(BufferSizeError::InvalidSize));
    assert_eq!(buffer_layout(30_000, 30_000), Err(BufferSizeError::TooLarge));
    assert_eq!(buffer_layout(0x2000_0000, 0), Err(BufferSizeError::StrideTooLarge));
    assert_eq!(buffer_layout(0x8000_0000, 0), Err(BufferSizeError::InvalidStride));
    assert_eq!(BufferSizeError::TooLarge.message(), "Wayland buffer is too large");
}

#[test]
fn tray_icon_is_a_green_disc() {
    let icon = tray_icon_argb();
    assert_eq!(icon.len(), 22 * 22 * 4);
    let at = |x: usize, y: usize| &icon[(y * 22 + x) * 4..(y * 22 + x) * 4 + 4];
    assert_eq!(at(11, 11), &[255, 92, 186, 83]);
    assert_eq!(at(0, 0), &[0, 0, 0, 0]);
    assert_eq!(at(11, 2), &[255, 92, 186, 83]);
    assert_eq!(at(11, 1), &[0, 0, 0, 0]);
}

#[test]
fn written_sizes_read_back() {
    for (w, h) in [(0, 0), (1920, 1080), (-5, 7), (i32::MAX, i32::MIN), (3, -2147483647)] {
        let text = format!("logical_size: Some(({w}, {h})), name: Some(\"DP-1\")");
        assert_eq!(parse_logical_size(&text), Some((w, h)));
    }
}

#[test]
fn pausing_twice_from_the_tray_restores() {
    let bounds = Bounds::new(1920, 1080, 96);
    let mut brain = PetBrain::new(11);
    let before = brain.snapshot();
    apply_tray_command(&mut brain, TrayCommand::TogglePause, bounds);
    apply_tray_command(&mut brain, TrayCommand::TogglePause, bounds);
    assert_eq!(brain.snapshot(), before);
    apply_tray_command(&mut brain, TrayCommand::ResetPosition, bounds);
    let once = brain.snapshot();
    apply_tray_command(&mut brain, TrayCommand::ResetPosition, bounds);
    assert_eq!(brain.snapshot(), once);
}
