use nokk_core::assets::{AnimationSpec, AssetManifest, FrameRef, HitZone, Point, Rect, SpriteSheet};
use nokk_core::decode::PngFrame;
use nokk_core::desktop::surface_size;
use nokk_core::scene::render_scene;
use nokk_core::{AnimationMap, Bounds, PetBrain, Surface};

fn manifest() -> AssetManifest {
    let mut animations = AnimationMap::new();
    for key in [
        "idle", "blink", "walk", "walk_down", "walk_up", "walk_left", "walk_right", "sit", "sleep", "happy", "poke",
        "dance",
    ] {
        animations.insert(
            key.to_string(),
            AnimationSpec { frames: vec![FrameRef { index: 0, duration_ms: 100 }], looped: true },
        );
    }
    AssetManifest {
        frame_size: 4,
        sheet_columns: 2,
        animations,
        hit_zones: vec![
            HitZone { name: "head".into(), rect: Rect { x: 0, y: 0, w: 4, h: 2 } },
            HitZone { name: "back".into(), rect: Rect { x: 0, y: 2, w: 4, h: 1 } },
            HitZone { name: "body".into(), rect: Rect { x: 0, y: 0, w: 4, h: 4 } },
        ],
        heart_spawn_points: vec![Point { x: 2, y: 2 }],
        heart_frames: vec![1],
    }
}

/// An 8 × 4 sheet: frame 0 opaque red, frame 1 opaque white.
fn sheet() -> SpriteSheet {
    let frame = PngFrame { width: 8, height: 4, rgba: true, eight_bit: true, line_size: 32 };
    let mut buffer = Vec::new();
    for _y in 0..4 {
        for x in 0..8 {
            if x < 4 {
                buffer.extend_from_slice(&[255, 0, 0, 255]);
            } else {
                buffer.extend_from_slice(&[255, 255, 255, 255]);
            }
        }
    }
    SpriteSheet::from_decoded(frame, buffer, manifest()).unwrap()
}

fn pixel(surface: &Surface, x: u32, y: u32) -> [u8; 4] {
    let i = ((y * surface.width + x) * 4) as usize;
    [surface.pixels[i], surface.pixels[i + 1], surface.pixels[i + 2], surface.pixels[i + 3]]
}

#[test]
fn scene_draws_the_pet_at_the_padding() {
    let sheet = sheet();
    assert!(sheet.manifest().durations_fit());
    let size = surface_size(4, 2) as u32;
    let bounds = Bounds::new(1920, 1080, 8);
    let mut brain = PetBrain::new(7);
    brain.toggle_paused();
    let surface = render_scene(&mut brain, &sheet, 1_000, bounds, 2, size, size);
    assert_eq!((surface.width, surface.height), (size, size));
    assert_eq!(pixel(&surface, 18, 18), [255, 0, 0, 255]);
    assert_eq!(pixel(&surface, 25, 25), [255, 0, 0, 255]);
    assert_eq!(pixel(&surface, 26, 18), [0, 0, 0, 0]);
    assert_eq!(pixel(&surface, 17, 18), [0, 0, 0, 0]);
    assert_eq!(pixel(&surface, 0, 0), [0, 0, 0, 0]);
}

#[test]
fn scene_ticks_the_brain() {
    let sheet = sheet();
    let bounds = Bounds::new(1920, 1080, 8);
    let mut brain = PetBrain::new(7);
    let mut other = PetBrain::new(7);
    render_scene(&mut brain, &sheet, 500, bounds, 1, 64, 64);
    other.tick(500, bounds);
    assert_eq!(brain.snapshot(), other.snapshot());
}

#[test]
fn scene_draws_hearts_after_a_stroke() {
    let sheet = sheet();
    let bounds = Bounds::new(1920, 1080, 8);
    let mut brain = PetBrain::new(7);
    brain.toggle_paused();
    let plain = render_scene(&mut brain, &sheet, 1_000, bounds, 1, 64, 64);
    assert!(brain.stroke(1_000, sheet.manifest()) >= 3);
    let with_hearts = render_scene(&mut brain, &sheet, 1_016, bounds, 1, 64, 64);
    assert!(!brain.particles().is_empty());
    let white = with_hearts.pixels.chunks_exact(4).filter(|p| p[1] > 0).count();
    assert!(white > 0);
    assert_eq!(plain.pixels.chunks_exact(4).filter(|p| p[1] > 0).count(), 0);
}
