use nokk_core::assets::Rgba;
use nokk_core::{HeartParticle, Surface};

#[test]
fn transparent_clear_sets_all_zero() {
    let mut surface = Surface::new(4, 4);
    surface.pixels.fill(255);
    surface.clear();
    assert!(surface.pixels.iter().all(|value| *value == 0));
}

#[test]
fn alpha_blend_uses_premultiplied_output() {
    let mut surface = Surface::new(1, 1);
    surface.blend_pixel(0, 0, Rgba { r: 100, g: 50, b: 0, a: 128 });
    assert_eq!(surface.pixels[3], 128);
    assert!(surface.pixels[0] <= 51);
    assert!(surface.pixels[1] <= 26);
}

#[test]
fn particle_lifetime_fades() {
    let mut particle = HeartParticle { x: 0, y: 0, vx: 0, vy: 0, age_ms: 0, lifetime_ms: 100, frame: 0 };
    assert_eq!(particle.alpha(), 255);
    particle.tick(50);
    assert!(particle.alpha() < 255);
    assert!(particle.alive());
    particle.tick(60);
    assert!(!particle.alive());
}

#[test]
fn blend_values_are_exact() {
    let mut surface = Surface::new(2, 1);
    surface.blend_pixel(1, 0, Rgba { r: 100, g: 50, b: 0, a: 128 });
    assert_eq!(&surface.pixels[4..8], &[50, 25, 0, 128]);
    surface.blend_pixel(1, 0, Rgba { r: 255, g: 255, b: 255, a: 255 });
    assert_eq!(&surface.pixels[4..8], &[255, 255, 255, 255]);
    assert_eq!(&surface.pixels[0..4], &[0, 0, 0, 0]);
    surface.blend_pixel(5, 0, Rgba { r: 255, g: 255, b: 255, a: 255 });
    surface.blend_pixel(-1, 0, Rgba { r: 255, g: 255, b: 255, a: 255 });
    assert_eq!(&surface.pixels[0..4], &[0, 0, 0, 0]);
}

#[test]
fn argb_words_keep_channel_order() {
    let mut surface = Surface::new(1, 1);
    surface.pixels.copy_from_slice(&[1, 2, 3, 4]);
    let out = surface.as_argb8888_native_endian();
    let word = u32::from_ne_bytes([out[0], out[1], out[2], out[3]]);
    assert_eq!(word, 0x04010203);
}

#[test]
fn heart_moves_and_rises() {
    let mut particle = HeartParticle { x: 0, y: 0, vx: 4_500, vy: -18_000, age_ms: 0, lifetime_ms: 1_300, frame: 1 };
    particle.tick(100);
    assert_eq!(particle.x, 450_000);
    assert_eq!(particle.y, -1_800_000);
    assert_eq!(particle.vy, -18_800);
    assert_eq!(particle.age_ms, 100);
    assert_eq!(particle.offset_from(0, 0), (0, -1));
    assert_eq!(particle.offset_from(-2, 1), (2, -2));
}

#[test]
fn bgra_swaps_red_and_blue() {
    let mut surface = Surface::new(2, 1);
    surface.pixels = vec![1, 2, 3, 4, 5, 6, 7, 8];
    assert_eq!(surface.as_bgra8888(), vec![3, 2, 1, 4, 7, 6, 5, 8]);
}
