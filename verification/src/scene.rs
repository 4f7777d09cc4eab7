use vstd::prelude::*;

use crate::assets::{lemma_durations_fit_pose, lemma_valid_manifest_serves_every_pose, SheetView, SpriteSheet};
use crate::desktop::SURFACE_PADDING;
use crate::pet::{heart_in_range, Bounds, HeartParticle, PetBrain, PetSnapshot};
use crate::render::{frame_blit_fits, lemma_frame_blit_fits, blit_result, Surface};

verus! {

/// Hearts are drawn at most at twice their size.
pub open spec fn heart_scale(scale: u32) -> u32 {
    if scale < 2 { scale } else { 2 }
}

/// Where a heart is drawn on the pet's surface: its offset from the pet, shifted by the
/// padding and back by half a heart.
pub open spec fn heart_position(p: HeartParticle, snapshot: PetSnapshot) -> (int, int) {
    let (ox, oy) = p.offset_spec(snapshot.x, snapshot.y);
    (ox + SURFACE_PADDING - 6, oy + SURFACE_PADDING - 6)
}

/// A heart can be drawn when its position and its blit stay within `i32`.
pub open spec fn heart_drawable(sheet: SheetView, p: HeartParticle, snapshot: PetSnapshot, scale: u32) -> bool {
    let (hx, hy) = heart_position(p, snapshot);
    &&& i32::MIN <= hx <= i32::MAX
    &&& i32::MIN <= hy <= i32::MAX
    &&& frame_blit_fits(sheet, p.frame, hx as i32, hy as i32, heart_scale(scale))
}

/// The surface bytes after drawing the hearts, in order, each faded by its age.
pub open spec fn hearts_drawn(
    pixels: Seq<u8>,
    width: int,
    sheet: SheetView,
    ps: Seq<HeartParticle>,
    snapshot: PetSnapshot,
    scale: u32,
) -> Seq<u8>
    decreases ps.len(),
{
    if ps.len() == 0 {
        pixels
    } else {
        let before = hearts_drawn(pixels, width, sheet, ps.drop_last(), snapshot, scale);
        let p = ps.last();
        if heart_drawable(sheet, p, snapshot, scale) {
            let (hx, hy) = heart_position(p, snapshot);
            blit_result(before, width, sheet, p.frame, hx, hy, heart_scale(scale), p.alpha_spec())
        } else {
            before
        }
    }
}

/// The pet's surface: on a transparent `width` × `height` surface, the frame drawn at the
/// padding at `scale`, then the hearts around it.
pub open spec fn scene_pixels(
    width: u32,
    height: u32,
    sheet: SheetView,
    frame: u16,
    particles: Seq<HeartParticle>,
    snapshot: PetSnapshot,
    scale: u32,
) -> Seq<u8> {
    let blank = Seq::new((width * height * 4) as nat, |i: int| 0u8);
    let body = if frame_blit_fits(sheet, frame, SURFACE_PADDING, SURFACE_PADDING, scale) {
        blit_result(blank, width as int, sheet, frame, SURFACE_PADDING as int, SURFACE_PADDING as int, scale, 255)
    } else {
        blank
    };
    hearts_drawn(body, width as int, sheet, particles, snapshot, scale)
}

/// Whether a frame drawn at `(x, y)` at `scale` stays within the integer types; see
/// `frame_blit_fits`.
fn blit_fits_at(sheet: &SpriteSheet, frame: u16, x: i32, y: i32, scale: u32) -> (r: bool)
    ensures
        r == frame_blit_fits(sheet@, frame, x, y, scale),
{
    let fs = sheet.frame_size() as u64;
    if fs == 0 {
        return true;
    }
    let columns = sheet.manifest().sheet_columns as u64;
    if columns == 0 {
        return false;
    }
    let s: u64 = if scale > 1 { scale as u64 } else { 1 };
    let f = frame as u64;
    assert(f % columns <= f && f / columns <= f) by (nonlinear_arith)
        requires columns > 0;
    assert((f % columns) * fs <= 0xffff * 0xffff_ffff) by (nonlinear_arith)
        requires f % columns <= f, f <= 0xffff, fs <= 0xffff_ffff, columns > 0;
    assert((f / columns) * fs <= 0xffff * 0xffff_ffff) by (nonlinear_arith)
        requires f / columns <= f, f <= 0xffff, fs <= 0xffff_ffff, columns > 0;
    let ox = (f % columns) * fs;
    let oy = (f / columns) * fs;
    if ox + fs - 1 > u32::MAX as u64 || oy + fs - 1 > u32::MAX as u64 {
        return false;
    }
    assert(fs * s <= 0xffff_ffff * 0xffff_ffff) by (nonlinear_arith)
        requires fs <= 0xffff_ffff, s <= 0xffff_ffff;
    let size = fs * s;
    if size > i32::MAX as u64 {
        return false;
    }
    (x as i64) + (size as i64) - 1 <= i32::MAX as i64 && (y as i64) + (size as i64) - 1 <= i32::MAX as i64
}

/// One frame of the desktop pet: the brain ticks at `now_ms`, then its frame and hearts
/// are drawn on a fresh `width` × `height` surface; see `scene_pixels`.
pub fn render_scene(
    brain: &mut PetBrain,
    sheet: &SpriteSheet,
    now_ms: u64,
    bounds: Bounds,
    scale: u32,
    width: u32,
    height: u32,
) -> (surface: Surface)
    requires
        old(brain).inv(),
        old(brain)@.can_tick(now_ms, bounds),
        width * height * 4 <= u32::MAX,
        sheet@.manifest.problem() is None,
        sheet@.manifest.durations_fit(),
    ensures
        final(brain).inv(),
        final(brain)@ == old(brain)@.ticked(now_ms, bounds),
        surface.wf(),
        surface.width == width,
        surface.height == height,
        surface.pixels@ == scene_pixels(
            width,
            height,
            sheet@,
            final(brain)@.frame_at(sheet@.manifest, now_ms),
            final(brain)@.particles,
            final(brain)@.snapshot,
            scale,
        ),
{
    brain.tick(now_ms, bounds);
    let mut surface = Surface::new(width, height);
    let snapshot = brain.snapshot();
    let manifest = sheet.manifest();
    proof {
        lemma_valid_manifest_serves_every_pose(manifest@, snapshot.animation);
        lemma_durations_fit_pose(manifest@, snapshot.animation);
        brain.lemma_state_wf();
    }
    let frame = brain.current_frame(manifest, now_ms);
    if blit_fits_at(sheet, frame, SURFACE_PADDING, SURFACE_PADDING, scale) {
        proof {
            lemma_frame_blit_fits(sheet@, frame, SURFACE_PADDING, SURFACE_PADDING, scale, 255);
        }
        surface.blit_frame(sheet, frame, SURFACE_PADDING, SURFACE_PADDING, scale);
    }
    let ghost body = surface.pixels@;
    let hs: u32 = if scale < 2 { scale } else { 2 };
    let ps = brain.particles();
    for i in 0..ps.len()
        invariant
            surface.wf(),
            surface.width == width,
            surface.height == height,
            brain.inv(),
            brain@.wf(),
            ps@ == brain@.particles,
            snapshot == brain@.snapshot,
            hs == heart_scale(scale),
            surface.pixels@ == hearts_drawn(body, width as int, sheet@, ps@.take(i as int), snapshot, scale),
    {
        let p = ps[i];
        proof {
            assert(heart_in_range(ps@[i as int]));
            assert(ps@.take(i + 1).drop_last() =~= ps@.take(i as int));
            assert(ps@.take(i + 1).last() == p);
        }
        let (ox, oy) = p.offset_from(snapshot.x, snapshot.y);
        let hx = ox as i64 + SURFACE_PADDING as i64 - 6;
        let hy = oy as i64 + SURFACE_PADDING as i64 - 6;
        if i32::MIN as i64 <= hx && hx <= i32::MAX as i64 && i32::MIN as i64 <= hy && hy <= i32::MAX as i64 {
            if blit_fits_at(sheet, p.frame, hx as i32, hy as i32, hs) {
                let alpha = p.alpha();
                proof {
                    lemma_frame_blit_fits(sheet@, p.frame, hx as i32, hy as i32, hs, alpha);
                }
                surface.blit_frame_with_alpha(sheet, p.frame, hx as i32, hy as i32, hs, alpha);
            }
        }
    }
    proof {
        assert(ps@.take(ps@.len() as int) =~= ps@);
    }
    surface
}

} // verus!
