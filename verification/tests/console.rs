use nokk_core::assets::{AnimationSpec, AssetManifest, FrameRef, HitZone, Point, Rect, SpriteSheet};
use nokk_core::console::{
    console_bounds, console_layout, console_picture, console_saved_config, sample_color, status_label, ConsoleCell,
    ConsoleLayout, Rgb, LOWER_HALF, UPPER_HALF,
};
use nokk_core::decode::PngFrame;
use nokk_core::{AnimationId, AnimationMap, AppConfig, Bounds, PetBrain, PetMood};

fn manifest() -> AssetManifest {
    let mut animations = AnimationMap::new();
    for key in [
        "idle", "blink", "walk", "walk_down", "walk_up", "walk_left", "walk_right", "sit", "sleep", "happy", "poke",
        "dance",
    ] {
        animations.insert(
            key.to_string(),
            AnimationSpec { frames: vec![FrameRef { index: 0, duration_ms: 100 }], looped: true },
        );
    }
    AssetManifest {
        frame_size: 4,
        sheet_columns: 1,
        animations,
        hit_zones: vec![
            HitZone { name: "head".into(), rect: Rect { x: 0, y: 0, w: 4, h: 2 } },
            HitZone { name: "back".into(), rect: Rect { x: 0, y: 2, w: 4, h: 1 } },
            HitZone { name: "body".into(), rect: Rect { x: 0, y: 0, w: 4, h: 4 } },
        ],
        heart_spawn_points: vec![Point { x: 2, y: 2 }],
        heart_frames: vec![0],
    }
}

/// A 4 × 4 sheet from sixteen pixels, row by row.
fn sheet(pixels: [[u8; 4]; 16]) -> SpriteSheet {
    let frame = PngFrame { width: 4, height: 4, rgba: true, eight_bit: true, line_size: 16 };
    let buffer: Vec<u8> = pixels.iter().flatten().copied().collect();
    SpriteSheet::from_decoded(frame, buffer, manifest()).unwrap()
}

const RED: [u8; 4] = [255, 0, 0, 255];
const GREEN: [u8; 4] = [0, 255, 0, 255];
const BLUE: [u8; 4] = [0, 0, 255, 255];
const CLEAR: [u8; 4] = [0, 0, 0, 0];

fn striped() -> SpriteSheet {
    sheet([
        RED, RED, RED, RED, CLEAR, CLEAR, CLEAR, CLEAR, GREEN, GREEN, GREEN, GREEN, BLUE, BLUE, BLUE, BLUE,
    ])
}

#[test]
fn layout_fits_the_terminal() {
    assert_eq!(console_layout(48, 80, 24), ConsoleLayout { sample: 2, output_pixels: 24, left_pad: 8 });
    assert_eq!(console_layout(48, 10, 5), ConsoleLayout { sample: 4, output_pixels: 12, left_pad: 0 });
    assert_eq!(console_layout(48, 200, 200), ConsoleLayout { sample: 1, output_pixels: 48, left_pad: 8 });
    assert_eq!(console_layout(200, 200, 200), ConsoleLayout { sample: 4, output_pixels: 50, left_pad: 8 });
    assert_eq!(console_layout(0, 80, 24), ConsoleLayout { sample: 1, output_pixels: 1, left_pad: 8 });
    assert_eq!(console_layout(4, 80, 24), ConsoleLayout { sample: 1, output_pixels: 4, left_pad: 8 });
}

#[test]
fn sample_color_is_the_weighted_mean() {
    let s = sheet([
        [200, 0, 0, 255], [0, 100, 0, 255], CLEAR, CLEAR,
        CLEAR, CLEAR, CLEAR, CLEAR,
        CLEAR, CLEAR, CLEAR, CLEAR,
        CLEAR, CLEAR, CLEAR, CLEAR,
    ]);
    assert_eq!(sample_color(&s, 0, 0, 0, 2), Some(Rgb { r: 100, g: 50, b: 0 }));
    assert_eq!(sample_color(&s, 0, 0, 0, 1), Some(Rgb { r: 200, g: 0, b: 0 }));
    assert_eq!(sample_color(&s, 0, 2, 2, 2), None);
    assert_eq!(sample_color(&s, 0, 4, 0, 2), None);
}

#[test]
fn faint_blocks_show_nothing() {
    let faint = [10, 20, 30, 17];
    let s = sheet([faint; 16]);
    assert_eq!(sample_color(&s, 0, 0, 0, 2), None);
    let barely = [10, 20, 30, 18];
    let s = sheet([barely; 16]);
    assert_eq!(sample_color(&s, 0, 0, 0, 2), Some(Rgb { r: 10, g: 20, b: 30 }));
    let ignored = [10, 20, 30, 8];
    let s = sheet([ignored; 16]);
    assert_eq!(sample_color(&s, 0, 0, 0, 4), None);
}

#[test]
fn blocks_are_clipped_to_the_frame() {
    let s = striped();
    assert_eq!(sample_color(&s, 0, 3, 3, 2), Some(Rgb { r: 0, g: 0, b: 255 }));
}

#[test]
fn picture_pairs_rows_into_cells() {
    let s = striped();
    let layout = console_layout(4, 80, 24);
    let rows = console_picture(&s, 0, layout);
    assert_eq!(rows.len(), 2);
    assert_eq!(rows[0].len(), 4);
    let red = Some(Rgb { r: 255, g: 0, b: 0 });
    let green = Some(Rgb { r: 0, g: 255, b: 0 });
    let blue = Some(Rgb { r: 0, g: 0, b: 255 });
    assert_eq!(rows[0][0], ConsoleCell { upper: red, lower: None });
    assert_eq!(rows[1][3], ConsoleCell { upper: green, lower: blue });
    assert_eq!(rows[0][0].glyph(), UPPER_HALF);
}

#[test]
fn odd_pictures_end_with_a_half_row() {
    let s = striped();
    let layout = ConsoleLayout { sample: 2, output_pixels: 2, left_pad: 0 };
    let rows = console_picture(&s, 0, layout);
    assert_eq!(rows.len(), 1);
    let one = ConsoleLayout { sample: 4, output_pixels: 1, left_pad: 0 };
    let rows = console_picture(&s, 0, one);
    assert_eq!(rows.len(), 1);
    assert_eq!(rows[0][0].lower, None);
}

#[test]
fn glyphs_pick_the_half_that_shows() {
    let c = Some(Rgb { r: 1, g: 2, b: 3 });
    assert_eq!(ConsoleCell { upper: c, lower: c }.glyph(), UPPER_HALF);
    assert_eq!(ConsoleCell { upper: None, lower: c }.glyph(), LOWER_HALF);
    assert_eq!(ConsoleCell { upper: None, lower: None }.glyph(), ' ');
}

#[test]
fn status_tells_whether_paused() {
    assert_eq!(status_label(true), "paused");
    assert_eq!(status_label(false), "wandering");
}

#[test]
fn console_bounds_use_cell_sizes() {
    assert_eq!(console_bounds(100, 30, 48), Bounds::new(800, 480, 48));
    assert_eq!(console_bounds(5, 5, 48), Bounds::new(160, 160, 48));
}

#[test]
fn console_keeps_the_saved_position() {
    let config = AppConfig { position: Some((5, 6)), scale: 2, ..AppConfig::default() };
    let mut brain = PetBrain::new(9);
    brain.place(300, 300);
    brain.toggle_paused();
    let saved = console_saved_config(config, brain.snapshot());
    assert_eq!(saved.position, Some((5, 6)));
    assert_eq!(saved.scale, 2);
    assert!(saved.paused);
    assert_eq!(saved.last_pose, AnimationId::Idle);
    assert_eq!(saved.mood, PetMood::Calm);
}

#[test]
fn frames_outside_the_coordinates_do_not_fit() {
    let s = striped();
    assert!(nokk_core::console::frame_fits_sheet(&s, 0));
    assert!(nokk_core::console::frame_fits_sheet(&s, 65535));
}

#[test]
fn uniform_blocks_show_their_colour() {
    let s = sheet([[40, 80, 120, 200]; 16]);
    assert_eq!(sample_color(&s, 0, 1, 1, 3), Some(Rgb { r: 40, g: 80, b: 120 }));
}
