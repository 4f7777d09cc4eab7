use nokk_core::assets::{AnimationSpec, AssetManifest, FrameRef, HitZone, Point, Rect, Rgba, SpriteSheet};
use nokk_core::decode::PngFrame;
use nokk_core::{AnimationMap, Surface};

fn manifest() -> AssetManifest {
    let mut animations = AnimationMap::new();
    for key in [
        "idle", "blink", "walk", "walk_down", "walk_up", "walk_left", "walk_right", "sit", "sleep", "happy", "poke",
        "dance",
    ] {
        animations.insert(
            key.to_string(),
            AnimationSpec { frames: vec![FrameRef { index: 0, duration_ms: 100 }], looped: true },
        );
    }
    AssetManifest {
        frame_size: 3,
        sheet_columns: 1,
        animations,
        hit_zones: vec![
            HitZone { name: "head".into(), rect: Rect { x: 0, y: 0, w: 3, h: 1 } },
            HitZone { name: "back".into(), rect: Rect { x: 0, y: 1, w: 3, h: 1 } },
            HitZone { name: "body".into(), rect: Rect { x: 0, y: 0, w: 3, h: 3 } },
        ],
        heart_spawn_points: vec![Point { x: 1, y: 1 }],
        heart_frames: vec![0],
    }
}

fn pixels() -> Vec<[u8; 4]> {
    vec![
        [200, 10, 10, 255], [0, 0, 0, 0], [10, 200, 10, 128],
        [10, 10, 200, 64], [90, 90, 90, 255], [0, 0, 0, 0],
        [255, 255, 255, 1], [30, 60, 90, 200], [5, 5, 5, 255],
    ]
}

fn sheet_of(pixels: &[[u8; 4]]) -> SpriteSheet {
    let frame = PngFrame { width: 3, height: 3, rgba: true, eight_bit: true, line_size: 12 };
    let buffer: Vec<u8> = pixels.iter().flatten().copied().collect();
    SpriteSheet::from_decoded(frame, buffer, manifest()).unwrap()
}

fn background() -> Surface {
    let mut surface = Surface::new(9, 8);
    for (i, byte) in surface.pixels.iter_mut().enumerate() {
        *byte = (i * 37 % 251) as u8;
    }
    surface
}

/// The drawing loop written out with `blend_pixel`.
fn reference(surface: &mut Surface, sheet: &SpriteSheet, x: i32, y: i32, scale: u32, alpha: u8) {
    let k = scale.max(1);
    for sy in 0..3u32 {
        for sx in 0..3u32 {
            let mut p = sheet.frame_pixel(0, sx, sy);
            p.a = ((u16::from(p.a) * u16::from(alpha)) / 255) as u8;
            if p.a == 0 {
                continue;
            }
            for oy in 0..k {
                for ox in 0..k {
                    surface.blend_pixel(x + (sx * k + ox) as i32, y + (sy * k + oy) as i32, p);
                }
            }
        }
    }
}

#[test]
fn blit_frame_is_the_blend_loop() {
    let sheet = sheet_of(&pixels());
    for (x, y, scale) in [(0, 0, 1), (1, 2, 2), (-2, 3, 2), (4, -1, 0), (7, 6, 3)] {
        let mut drawn = background();
        drawn.blit_frame(&sheet, 0, x, y, scale);
        let mut expected = background();
        reference(&mut expected, &sheet, x, y, scale, 255);
        assert_eq!(drawn, expected);
    }
}

#[test]
fn faded_blit_is_blit_of_a_faded_sheet() {
    let sheet = sheet_of(&pixels());
    for alpha in [0u8, 1, 77, 128, 254, 255] {
        let faded: Vec<[u8; 4]> = pixels()
            .iter()
            .map(|p| [p[0], p[1], p[2], ((u16::from(p[3]) * u16::from(alpha)) / 255) as u8])
            .collect();
        let faded_sheet = sheet_of(&faded);
        let mut drawn = background();
        drawn.blit_frame_with_alpha(&sheet, 0, 1, 1, 2, alpha);
        let mut plain = background();
        plain.blit_frame(&faded_sheet, 0, 1, 1, 2);
        assert_eq!(drawn, plain);
        let mut looped = background();
        reference(&mut looped, &sheet, 1, 1, 2, alpha);
        assert_eq!(drawn, looped);
    }
    let mut invisible = background();
    invisible.blit_frame_with_alpha(&sheet, 0, 1, 1, 2, 0);
    assert_eq!(invisible, background());
    assert_eq!(sheet.frame_pixel(0, 1, 0), Rgba { r: 0, g: 0, b: 0, a: 0 });
}

#[test]
fn transparent_columns_may_lie_past_the_integers() {
    let mut columns = pixels();
    for row in 0..3 {
        columns[row * 3 + 2] = [0, 0, 0, 0];
    }
    let sheet = sheet_of(&columns);
    let mut surface = background();
    // the third column would reach past i32::MAX, but it is transparent and not drawn
    surface.blit_frame(&sheet, 0, i32::MAX - 3, 0, 2);
    assert_eq!(surface, background());
}
