use nokk_core::assets::{AnimationSpec, AssetError, AssetManifest, FrameRef, HitZone, Point, Rect, Rgba, SpriteSheet};
use nokk_core::decode::PngFrame;
use nokk_core::{AnimationId, AnimationMap};

#[test]
fn looped_animation_wraps() {
    let animation = AnimationSpec {
        frames: vec![
            FrameRef { index: 1, duration_ms: 100 },
            FrameRef { index: 2, duration_ms: 100 },
        ],
        looped: true,
    };
    assert_eq!(animation.frame_at(0), Some(1));
    assert_eq!(animation.frame_at(150), Some(2));
    assert_eq!(animation.frame_at(250), Some(1));
}

#[test]
fn non_looped_animation_holds_last_frame() {
    let animation = AnimationSpec {
        frames: vec![
            FrameRef { index: 4, duration_ms: 50 },
            FrameRef { index: 5, duration_ms: 50 },
        ],
        looped: false,
    };
    assert_eq!(animation.frame_at(999), Some(5));
}

const KEYS: [&str; 12] = [
    "idle", "blink", "walk", "walk_down", "walk_up", "walk_left", "walk_right", "sit", "sleep", "happy", "poke",
    "dance",
];

fn manifest() -> AssetManifest {
    let mut animations = AnimationMap::new();
    for key in KEYS {
        animations.insert(
            key.to_string(),
            AnimationSpec { frames: vec![FrameRef { index: 0, duration_ms: 100 }], looped: true },
        );
    }
    AssetManifest {
        frame_size: 2,
        sheet_columns: 2,
        animations,
        hit_zones: vec![
            HitZone { name: "head".into(), rect: Rect { x: 0, y: 0, w: 2, h: 1 } },
            HitZone { name: "back".into(), rect: Rect { x: 0, y: 1, w: 2, h: 1 } },
            HitZone { name: "body".into(), rect: Rect { x: 0, y: 0, w: 2, h: 2 } },
        ],
        heart_spawn_points: vec![Point { x: 1, y: 1 }],
        heart_frames: vec![1],
    }
}

fn message(error: AssetError) -> String {
    match error {
        AssetError::Manifest(m) | AssetError::Png(m) | AssetError::InvalidSheet(m) => m,
    }
}

#[test]
fn animation_keys_match_manifest_names() {
    assert_eq!(AnimationId::WalkLeft.as_key(), "walk_left");
    assert_eq!(AnimationId::Idle.as_key(), "idle");
    assert_eq!(AnimationId::Dance.as_key(), "dance");
}

#[test]
fn complete_manifest_validates() {
    assert!(manifest().validate().is_ok());
}

#[test]
fn zero_frame_size_is_rejected_first() {
    let mut m = manifest();
    m.frame_size = 0;
    m.sheet_columns = 0;
    let error = m.validate().unwrap_err();
    assert!(matches!(error, AssetError::Manifest(_)));
    assert_eq!(message(error), "frame_size must be greater than zero");
}

#[test]
fn zero_columns_is_rejected() {
    let mut m = manifest();
    m.sheet_columns = 0;
    assert_eq!(message(m.validate().unwrap_err()), "sheet_columns must be greater than zero");
}

#[test]
fn missing_animation_is_named() {
    let mut m = manifest();
    let mut animations = AnimationMap::new();
    for key in KEYS {
        if key != "sit" {
            animations.insert(
                key.to_string(),
                AnimationSpec { frames: vec![FrameRef { index: 0, duration_ms: 100 }], looped: true },
            );
        }
    }
    m.animations = animations;
    assert_eq!(message(m.validate().unwrap_err()), "missing required animation sit");
}

#[test]
fn empty_animation_is_named() {
    let mut m = manifest();
    m.animations.insert("blink".to_string(), AnimationSpec { frames: vec![], looped: false });
    assert_eq!(message(m.validate().unwrap_err()), "animation blink has no frames");
}

#[test]
fn missing_hit_zone_is_named() {
    let mut m = manifest();
    m.hit_zones.remove(1);
    assert_eq!(message(m.validate().unwrap_err()), "missing required hit zone back");
}

#[test]
fn hearts_are_required() {
    let mut m = manifest();
    m.heart_spawn_points.clear();
    assert_eq!(message(m.validate().unwrap_err()), "at least one heart spawn point is required");
    let mut m = manifest();
    m.heart_frames.clear();
    assert_eq!(message(m.validate().unwrap_err()), "at least one heart frame is required");
}

#[test]
fn animation_map_keeps_names_sorted_and_replaces() {
    let mut map = AnimationMap::new();
    let spec = |index: u16| AnimationSpec { frames: vec![FrameRef { index, duration_ms: 10 }], looped: true };
    assert!(map.insert("walk".to_string(), spec(1)).is_none());
    assert!(map.insert("blink".to_string(), spec(2)).is_none());
    assert!(map.insert("idle".to_string(), spec(3)).is_none());
    let previous = map.insert("blink".to_string(), spec(4)).unwrap();
    assert_eq!(previous.frames[0].index, 2);
    let names: Vec<&str> = map.entries().iter().map(|(name, _)| name.as_str()).collect();
    assert_eq!(names, vec!["blink", "idle", "walk"]);
    assert_eq!(map.get("blink").unwrap().frames[0].index, 4);
    assert!(map.get("sit").is_none());
    assert_eq!(map.len(), 3);
}

#[test]
fn hit_zones_are_looked_up_by_name() {
    let m = manifest();
    assert_eq!(m.hit_zone("back"), Some(Rect { x: 0, y: 1, w: 2, h: 1 }));
    assert_eq!(m.hit_zone("tail"), None);
    assert!(m.is_stroke_zone(1, 0));
    assert!(m.is_body_zone(1, 1));
    assert!(!m.is_body_zone(2, 1));
    assert!(!m.is_stroke_zone(0, 2));
}

#[test]
fn rect_contains_is_half_open() {
    let r = Rect { x: 10, y: 5, w: 28, h: 20 };
    assert!(r.contains(10, 5));
    assert!(r.contains(37, 24));
    assert!(!r.contains(38, 24));
    assert!(!r.contains(9, 5));
}

#[test]
fn total_duration_counts_zero_as_one() {
    let animation = AnimationSpec {
        frames: vec![FrameRef { index: 1, duration_ms: 0 }, FrameRef { index: 2, duration_ms: 30 }],
        looped: true,
    };
    assert_eq!(animation.total_duration_ms(), 31);
    assert_eq!(animation.frame_at(0), Some(1));
    assert_eq!(animation.frame_at(1), Some(2));
    assert_eq!(animation.frame_at(31), Some(1));
    let empty = AnimationSpec { frames: vec![], looped: true };
    assert_eq!(empty.frame_at(5), None);
}

fn frame(width: u32, height: u32) -> PngFrame {
    PngFrame { width, height, rgba: true, eight_bit: true, line_size: (width * 4) as usize }
}

fn buffer(width: u32, height: u32) -> Vec<u8> {
    (0..width * height * 4).map(|i| i as u8).collect()
}

#[test]
fn decoded_frame_becomes_sheet() {
    let sheet = SpriteSheet::from_decoded(frame(4, 4), buffer(4, 4), manifest()).unwrap();
    assert_eq!(sheet.width(), 4);
    assert_eq!(sheet.height(), 4);
    assert_eq!(sheet.frame_size(), 2);
    assert_eq!(sheet.pixel(1, 0), Rgba { r: 4, g: 5, b: 6, a: 7 });
    assert_eq!(sheet.pixel(4, 0), Rgba::default());
    // frame 3 sits at column 1, row 1: its (0, 1) is sheet pixel (2, 3)
    assert_eq!(sheet.frame_pixel(3, 0, 1), Rgba { r: 56, g: 57, b: 58, a: 59 });
}

#[test]
fn non_rgba_frame_is_rejected() {
    let mut f = frame(4, 4);
    f.rgba = false;
    let error = SpriteSheet::from_decoded(f, buffer(4, 4), manifest()).unwrap_err();
    assert!(matches!(error, AssetError::InvalidSheet(_)));
    assert_eq!(message(error), "spritesheet must be 8-bit RGBA PNG");
}

#[test]
fn uneven_sheet_is_rejected() {
    let error = SpriteSheet::from_decoded(frame(5, 4), buffer(5, 4), manifest()).unwrap_err();
    assert_eq!(message(error), "sheet dimensions 5x4 are not multiples of frame size 2");
}

#[test]
fn missing_frames_are_named() {
    let mut m = manifest();
    m.animations.insert(
        "dance".to_string(),
        AnimationSpec { frames: vec![FrameRef { index: 9, duration_ms: 10 }], looped: true },
    );
    let error = SpriteSheet::from_decoded(frame(4, 4), buffer(4, 4), m).unwrap_err();
    assert_eq!(message(error), "animation dance references missing frame 9");
    let mut m = manifest();
    m.heart_frames = vec![1, 12];
    let error = SpriteSheet::from_decoded(frame(4, 4), buffer(4, 4), m).unwrap_err();
    assert_eq!(message(error), "heart frame 12 does not exist");
}

#[test]
fn short_buffer_is_rejected() {
    let error = SpriteSheet::from_decoded(frame(4, 4), vec![0; 10], manifest()).unwrap_err();
    assert!(matches!(error, AssetError::Png(_)));
}

#[test]
fn garbage_bytes_are_not_a_png() {
    let error = SpriteSheet::from_png_bytes(&[1, 2, 3, 4], manifest()).unwrap_err();
    assert!(matches!(error, AssetError::Png(_)));
}

#[test]
fn error_messages_name_their_kind() {
    assert_eq!(AssetError::Manifest("x".to_string()).message(), "asset manifest error: x");
    assert_eq!(AssetError::Png("bad crc".to_string()).message(), "png decode error: bad crc");
    assert_eq!(AssetError::InvalidSheet("odd".to_string()).message(), "invalid spritesheet: odd");
}

#[test]
fn sprites_need_a_valid_manifest_first() {
    let mut m = manifest();
    m.frame_size = 0;
    let error = nokk_core::assets::load_sprites(m, &[1, 2, 3]).unwrap_err();
    assert_eq!(message(error), "frame_size must be greater than zero");
    let error = nokk_core::assets::load_sprites(manifest(), &[1, 2, 3]).unwrap_err();
    assert!(matches!(error, AssetError::Png(_)));
}

#[test]
fn durations_fit_for_ordinary_manifests() {
    assert!(manifest().durations_fit());
    assert!(AnimationSpec { frames: vec![FrameRef { index: 0, duration_ms: 0 }], looped: false }.total_fits());
}

fn encode_png(width: u32, height: u32, color: png::ColorType, data: &[u8]) -> Vec<u8> {
    let mut bytes = Vec::new();
    {
        let mut encoder = png::Encoder::new(&mut bytes, width, height);
        encoder.set_color(color);
        encoder.set_depth(png::BitDepth::Eight);
        let mut writer = encoder.write_header().unwrap();
        writer.write_image_data(data).unwrap();
        writer.finish().unwrap();
    }
    bytes
}

#[test]
fn encoded_sheet_decodes_to_its_pixels() {
    let data = buffer(4, 4);
    let png = encode_png(4, 4, png::ColorType::Rgba, &data);
    let sheet = SpriteSheet::from_png_bytes(&png, manifest()).unwrap();
    assert_eq!((sheet.width(), sheet.height()), (4, 4));
    assert_eq!(sheet.pixel(1, 0), Rgba { r: 4, g: 5, b: 6, a: 7 });
    assert_eq!(sheet.frame_pixel(3, 0, 1), Rgba { r: 56, g: 57, b: 58, a: 59 });
    let loaded = nokk_core::assets::load_sprites(manifest(), &png).unwrap();
    assert_eq!(loaded.pixel(3, 3), Rgba { r: 60, g: 61, b: 62, a: 63 });
}

#[test]
fn rgb_png_is_not_a_sheet() {
    let data: Vec<u8> = (0..4 * 4 * 3).map(|i| i as u8).collect();
    let png = encode_png(4, 4, png::ColorType::Rgb, &data);
    let error = SpriteSheet::from_png_bytes(&png, manifest()).unwrap_err();
    assert!(matches!(&error, AssetError::InvalidSheet(_)));
    assert_eq!(message(error), "spritesheet must be 8-bit RGBA PNG");
}

#[test]
fn cloned_sheet_keeps_pixels_and_manifest() {
    let mut m = manifest();
    m.hit_zones.push(HitZone { name: "tail".into(), rect: Rect { x: 1, y: 1, w: 1, h: 1 } });
    let copy = m.clone();
    assert_eq!(copy, m);
    let sheet = SpriteSheet::from_decoded(frame(4, 4), buffer(4, 4), m).unwrap();
    let cloned = sheet.clone();
    assert_eq!((cloned.width(), cloned.height()), (sheet.width(), sheet.height()));
    assert_eq!(cloned.manifest(), sheet.manifest());
    assert_eq!(cloned.manifest().hit_zones[3].name, "tail");
    for y in 0..4 {
        for x in 0..4 {
            assert_eq!(cloned.pixel(x, y), sheet.pixel(x, y));
        }
    }
}
