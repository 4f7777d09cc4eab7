use vstd::prelude::*;

use crate::assets::{Rgba, SheetView, SpriteSheet};
use crate::config::AppConfig;
use crate::pet::{Bounds, PetSnapshot};

verus! {

/// A terminal colour.
#[derive(Clone, Copy, Debug, PartialEq, Eq, Structural)]
pub struct Rgb {
    pub r: u8,
    pub g: u8,
    pub b: u8,
}

/// Opacity-weighted sums of the red, green and blue channels of the pixels that count
/// (opacity above 8), and the sum of their opacities.
pub open spec fn weighted_sums(ps: Seq<Rgba>) -> (int, int, int, int)
    decreases ps.len(),
{
    if ps.len() == 0 {
        (0, 0, 0, 0)
    } else {
        let (r, g, b, a) = weighted_sums(ps.drop_last());
        let p = ps.last();
        if p.a > 8 {
            (r + p.r * p.a, g + p.g * p.a, b + p.b * p.a, a + p.a)
        } else {
            (r, g, b, a)
        }
    }
}

/// The pixels of a frame in the rectangle `[x0, x1) × [y0, y1)`, row by row.
pub open spec fn region(sheet: SheetView, frame: u16, x0: int, x1: int, y0: int, y1: int) -> Seq<Rgba> {
    let w = x1 - x0;
    Seq::new(((x1 - x0) * (y1 - y0)) as nat, |k: int| sheet.frame_pixel_at(frame, x0 + k % w, y0 + k / w))
}

pub open spec fn min_int(a: int, b: int) -> int {
    if a < b { a } else { b }
}

/// The colour of a `sample` × `sample` block of a frame, clipped to the frame: the
/// opacity-weighted mean of its pixels that count, or nothing when the block is empty or
/// its mean opacity (over all its pixels) is below 18.
pub open spec fn sample_color_spec(sheet: SheetView, frame: u16, x_start: u32, y_start: u32, sample: u32) -> Option<Rgb> {
    let fs = sheet.manifest.frame_size as int;
    let x_end = min_int(x_start + sample, fs);
    let y_end = min_int(y_start + sample, fs);
    if x_start >= x_end || y_start >= y_end {
        None
    } else {
        let n = (x_end - x_start) * (y_end - y_start);
        let (r, g, b, a) = weighted_sums(region(sheet, frame, x_start as int, x_end, y_start as int, y_end));
        if a / n < 18 {
            None
        } else {
            Some(Rgb { r: (r / a) as u8, g: (g / a) as u8, b: (b / a) as u8 })
        }
    }
}

/// Every pixel of the frame can be looked up: the sheet has columns and the frame's
/// pixels have coordinates within `u32`.
pub open spec fn frame_fits(sheet: SheetView, frame: u16) -> bool {
    let fs = sheet.manifest.frame_size as int;
    fs == 0 || {
        &&& sheet.manifest.sheet_columns > 0
        &&& sheet.frame_origin(frame).0 + fs - 1 <= u32::MAX
        &&& sheet.frame_origin(frame).1 + fs - 1 <= u32::MAX
    }
}

/// Whether every pixel of a frame can be looked up; see `frame_fits`.
pub fn frame_fits_sheet(sheet: &SpriteSheet, frame: u16) -> (r: bool)
    ensures
        r == frame_fits(sheet@, frame),
{
    let fs = sheet.frame_size() as u64;
    if fs == 0 {
        return true;
    }
    let columns = sheet.manifest().sheet_columns as u64;
    if columns == 0 {
        return false;
    }
    let f = frame as u64;
    assert(f % columns <= f && f / columns <= f) by (nonlinear_arith)
        requires columns > 0;
    assert((f % columns) * fs <= 0xffff * 0xffff_ffff && (f / columns) * fs <= 0xffff * 0xffff_ffff) by (nonlinear_arith)
        requires f % columns <= f, f / columns <= f, f <= 0xffff, fs <= 0xffff_ffff;
    let ox = (f % columns) * fs;
    let oy = (f / columns) * fs;
    ox + fs - 1 <= u32::MAX as u64 && oy + fs - 1 <= u32::MAX as u64
}

proof fn lemma_weighted_sums_bounds(ps: Seq<Rgba>)
    ensures
        0 <= weighted_sums(ps).0 <= 255 * weighted_sums(ps).3,
        0 <= weighted_sums(ps).1 <= 255 * weighted_sums(ps).3,
        0 <= weighted_sums(ps).2 <= 255 * weighted_sums(ps).3,
        0 <= weighted_sums(ps).3 <= 255 * ps.len(),
    decreases ps.len(),
{
    if ps.len() > 0 {
        lemma_weighted_sums_bounds(ps.drop_last());
        let p = ps.last();
        assert(p.r * p.a <= 255 * p.a && p.g * p.a <= 255 * p.a && p.b * p.a <= 255 * p.a) by (nonlinear_arith)
            requires p.r <= 255, p.g <= 255, p.b <= 255, p.a >= 0;
        assert(0 <= p.r * p.a && 0 <= p.g * p.a && 0 <= p.b * p.a) by (nonlinear_arith)
            requires p.r >= 0, p.g >= 0, p.b >= 0, p.a >= 0;
    }
}

proof fn lemma_region_index(x0: int, y0: int, w: int, x: int, y: int)
    requires
        w > 0,
        x0 <= x < x0 + w,
        y0 <= y,
    ensures
        ((y - y0) * w + (x - x0)) % w == x - x0,
        ((y - y0) * w + (x - x0)) / w == y - y0,
{
    vstd::arithmetic::div_mod::lemma_fundamental_div_mod_converse((y - y0) * w + (x - x0), w, y - y0, x - x0);
}

proof fn lemma_mean_channel(c: int, a: int)
    requires
        0 <= c <= 255 * a,
        a > 0,
    ensures
        0 <= c / a <= 255,
{
    assert(0 <= c / a <= 255) by (nonlinear_arith)
        requires 0 <= c <= 255 * a, a > 0;
}

/// The colour a terminal cell shows for a block of the frame; see `sample_color_spec`.
pub fn sample_color(sheet: &SpriteSheet, frame: u16, x_start: u32, y_start: u32, sample: u32) -> (color: Option<Rgb>)
    requires
        frame_fits(sheet@, frame),
        x_start + sample <= u32::MAX,
        y_start + sample <= u32::MAX,
    ensures
        color == sample_color_spec(sheet@, frame, x_start, y_start, sample),
{
    let fs = sheet.frame_size();
    let x_end = if x_start + sample < fs { x_start + sample } else { fs };
    let y_end = if y_start + sample < fs { y_start + sample } else { fs };
    if x_start >= x_end || y_start >= y_end {
        return None;
    }
    let ghost w = (x_end - x_start) as int;
    let ghost reg = region(sheet@, frame, x_start as int, x_end as int, y_start as int, y_end as int);
    let mut r: u128 = 0;
    let mut g: u128 = 0;
    let mut b: u128 = 0;
    let mut alpha: u128 = 0;
    let mut samples: u64 = 0;
    assert(reg.take(0) =~= Seq::<Rgba>::empty());
    assert(reg.len() == w * (y_end - y_start));
    assert((y_start - y_start) * w == 0);
    for y in y_start..y_end
        invariant
            x_start < x_end <= fs,
            y_start < y_end <= fs,
            fs == sheet@.manifest.frame_size,
            frame_fits(sheet@, frame),
            w == x_end - x_start,
            reg == region(sheet@, frame, x_start as int, x_end as int, y_start as int, y_end as int),
            reg.len() == w * (y_end - y_start),
            samples == (y - y_start) * w,
            (r as int, g as int, b as int, alpha as int) == weighted_sums(reg.take(samples as int)),
    {
        assert(samples + w <= reg.len()) by (nonlinear_arith)
            requires samples == (y - y_start) * w, y < y_end, reg.len() == w * (y_end - y_start), w > 0;
        assert(reg.len() <= u32::MAX * u32::MAX) by (nonlinear_arith)
            requires reg.len() == w * (y_end - y_start), 0 < w <= u32::MAX, 0 < y_end - y_start <= u32::MAX;
        for x in x_start..x_end
            invariant
                x_start < x_end <= fs,
                y_start <= y < y_end <= fs,
                fs == sheet@.manifest.frame_size,
                frame_fits(sheet@, frame),
                w == x_end - x_start,
                reg == region(sheet@, frame, x_start as int, x_end as int, y_start as int, y_end as int),
                samples == (y - y_start) * w + (x - x_start),
                samples + (x_end - x) <= reg.len(),
                reg.len() <= u32::MAX * u32::MAX,
                (r as int, g as int, b as int, alpha as int) == weighted_sums(reg.take(samples as int)),
        {
            proof {
                lemma_region_index(x_start as int, y_start as int, w, x as int, y as int);
                lemma_weighted_sums_bounds(reg.take(samples as int));
                assert(reg.take(samples as int).len() == samples);
                assert(255 * (alpha as int) <= 255 * 255 * samples) by (nonlinear_arith)
                    requires alpha <= 255 * samples;
                assert(reg.take(samples + 1).drop_last() =~= reg.take(samples as int));
            }
            let px = sheet.frame_pixel(frame, x, y);
            assert(px == reg[samples as int]);
            samples = samples + 1;
            proof {
                assert(r + 65025 <= u128::MAX && g + 65025 <= u128::MAX && b + 65025 <= u128::MAX) by (nonlinear_arith)
                    requires
                        r <= 255 * alpha,
                        g <= 255 * alpha,
                        b <= 255 * alpha,
                        255 * (alpha as int) <= 255 * 255 * (samples - 1),
                        samples <= u32::MAX * u32::MAX;
                assert((px.r as int) * (px.a as int) <= 65025 && (px.g as int) * (px.a as int) <= 65025
                    && (px.b as int) * (px.a as int) <= 65025) by (nonlinear_arith)
                    requires px.r <= 255, px.g <= 255, px.b <= 255, px.a <= 255;
            }
            if px.a > 8 {
                let weight = px.a as u128;
                r = r + (px.r as u128) * weight;
                g = g + (px.g as u128) * weight;
                b = b + (px.b as u128) * weight;
                alpha = alpha + weight;
            }
        }
        assert(samples == (y + 1 - y_start) * w) by (nonlinear_arith)
            requires samples == (y - y_start) * w + w;
    }
    let ghost n = (x_end - x_start) * (y_end - y_start);
    assert(samples == n) by (nonlinear_arith)
        requires samples == (y_end - y_start) * w, w == x_end - x_start, n == (x_end - x_start) * (y_end - y_start);
    assert(reg.take(samples as int) =~= reg);
    assert(n > 0) by (nonlinear_arith)
        requires n == (x_end - x_start) * (y_end - y_start), x_end > x_start, y_end > y_start;
    proof {
        lemma_weighted_sums_bounds(reg);
    }
    if alpha / (samples as u128) < 18 {
        return None;
    }
    proof {
        lemma_mean_channel(r as int, alpha as int);
        lemma_mean_channel(g as int, alpha as int);
        lemma_mean_channel(b as int, alpha as int);
    }
    Some(Rgb { r: (r / alpha) as u8, g: (g / alpha) as u8, b: (b / alpha) as u8 })
}

pub open spec fn max_int(a: int, b: int) -> int {
    if a > b { a } else { b }
}

/// How a frame is fitted into a terminal: each cell column shows a `sample` × `sample`
/// block, `output_pixels` blocks a side, indented by `left_pad` columns.
#[derive(Clone, Copy, Debug, PartialEq, Eq, Structural)]
pub struct ConsoleLayout {
    pub sample: u32,
    pub output_pixels: u32,
    pub left_pad: u32,
}

/// The layout for a frame of side `fs` in a terminal of `cols` × `rows` cells: the frame
/// is shrunk to at most 64 blocks a side and to what the terminal holds (two blocks a
/// cell vertically, room for the header), but never below 12; it is indented by half the
/// free columns, at most 8.
pub open spec fn console_layout_spec(fs: u32, cols: u16, rows: u16) -> ConsoleLayout {
    let available_cols = max_int(max_int(cols - 2, 0), 1);
    let available_pixel_rows = max_int(max_int(rows - 5, 0), 1) * 2;
    let target = max_int(min_int(min_int(min_int(fs as int, 64), available_cols), available_pixel_rows), 12);
    let f = fs as int;
    let sample = max_int(f / target + (if f % target > 0 { 1int } else { 0 }), 1);
    let output = max_int(f / sample, 1);
    let left_pad = min_int(max_int(cols - output, 0) / 2, 8);
    ConsoleLayout { sample: sample as u32, output_pixels: output as u32, left_pad: left_pad as u32 }
}

pub fn console_layout(frame_size: u32, cols: u16, rows: u16) -> (layout: ConsoleLayout)
    ensures
        layout == console_layout_spec(frame_size, cols, rows),
        layout.sample >= 1,
        layout.output_pixels >= 1,
{
    let available_cols: u32 = if cols > 3 { (cols - 2) as u32 } else { 1 };
    let available_pixel_rows: u32 = (if rows > 6 { (rows - 5) as u32 } else { 1 }) * 2;
    let mut target = if frame_size < 64 { frame_size } else { 64 };
    if available_cols < target {
        target = available_cols;
    }
    if available_pixel_rows < target {
        target = available_pixel_rows;
    }
    if target < 12 {
        target = 12;
    }
    assert(frame_size / target < u32::MAX) by (nonlinear_arith)
        requires target >= 12;
    let ceil = frame_size / target + if frame_size % target > 0 { 1 } else { 0 };
    let sample = if ceil > 1 { ceil } else { 1 };
    let quotient = frame_size / sample;
    let output = if quotient > 1 { quotient } else { 1 };
    let free = if (cols as u32) > output { cols as u32 - output } else { 0 };
    let left_pad = if free / 2 < 8 { free / 2 } else { 8 };
    ConsoleLayout { sample, output_pixels: output, left_pad }
}

/// One terminal cell: the colours of the block above and the block below it.
#[derive(Clone, Copy, Debug, PartialEq, Eq, Structural)]
pub struct ConsoleCell {
    pub upper: Option<Rgb>,
    pub lower: Option<Rgb>,
}

/// Upper half block.
pub const UPPER_HALF: char = '\u{2580}';
/// Lower half block.
pub const LOWER_HALF: char = '\u{2584}';

impl ConsoleCell {
    /// The character that draws the cell: an upper half block when the upper block has a
    /// colour (the lower one, if any, as background), a lower half block when only the
    /// lower one has, a space otherwise.
    pub fn glyph(&self) -> (c: char)
        ensures
            c == if self.upper is Some {
                UPPER_HALF
            } else if self.lower is Some {
                LOWER_HALF
            } else {
                ' '
            },
    {
        if self.upper.is_some() {
            UPPER_HALF
        } else if self.lower.is_some() {
            LOWER_HALF
        } else {
            ' '
        }
    }
}

/// The cell for block column `x` over block rows `y` and `y + 1`.
pub open spec fn cell_spec(sheet: SheetView, frame: u16, layout: ConsoleLayout, x: int, y: int) -> ConsoleCell {
    let s = layout.sample;
    ConsoleCell {
        upper: sample_color_spec(sheet, frame, (x * s) as u32, (y * s) as u32, s),
        lower: if y + 1 < layout.output_pixels {
            sample_color_spec(sheet, frame, (x * s) as u32, ((y + 1) * s) as u32, s)
        } else {
            None
        },
    }
}

/// The picture of a frame: one row of cells for every two block rows.
pub open spec fn picture_spec(sheet: SheetView, frame: u16, layout: ConsoleLayout) -> Seq<Seq<ConsoleCell>> {
    let out = layout.output_pixels as int;
    Seq::new(
        ((out + 1) / 2) as nat,
        |row: int| Seq::new(out as nat, |x: int| cell_spec(sheet, frame, layout, x, 2 * row)),
    )
}

proof fn lemma_block_fits(fs: int, s: int, i: int)
    requires
        s >= 1,
        0 <= fs <= u32::MAX,
        s <= u32::MAX,
        0 <= i < max_int(fs / s, 1),
    ensures
        i * s + s <= u32::MAX,
        0 <= i * s,
{
    if fs / s >= 1 {
        assert(i * s + s <= (fs / s) * s) by (nonlinear_arith)
            requires i + 1 <= fs / s, s >= 1;
        assert((fs / s) * s <= fs) by (nonlinear_arith)
            requires s >= 1, fs >= 0;
    }
    assert(0 <= i * s) by (nonlinear_arith)
        requires i >= 0, s >= 1;
}

/// The cells that draw a frame with a layout; see `picture_spec`.
pub fn console_picture(sheet: &SpriteSheet, frame: u16, layout: ConsoleLayout) -> (rows: Vec<Vec<ConsoleCell>>)
    requires
        frame_fits(sheet@, frame),
        layout.sample >= 1,
        layout.output_pixels == max_int((sheet@.manifest.frame_size as int) / (layout.sample as int), 1),
    ensures
        rows@.len() == picture_spec(sheet@, frame, layout).len(),
        forall|r: int| 0 <= r < rows@.len() ==> #[trigger] rows@[r]@ == picture_spec(sheet@, frame, layout)[r],
{
    let s = layout.sample;
    let out = layout.output_pixels;
    let ghost fs = sheet@.manifest.frame_size as int;
    let ghost pic = picture_spec(sheet@, frame, layout);
    let mut rows: Vec<Vec<ConsoleCell>> = Vec::new();
    let mut y: u64 = 0;
    while y < out as u64
        invariant
            s == layout.sample,
            out == layout.output_pixels,
            s >= 1,
            out == max_int(fs / (s as int), 1),
            fs == sheet@.manifest.frame_size,
            frame_fits(sheet@, frame),
            pic == picture_spec(sheet@, frame, layout),
            y % 2 == 0,
            y <= out + 1,
            rows@.len() == y / 2,
            forall|r: int| 0 <= r < rows@.len() ==> #[trigger] rows@[r]@ == pic[r],
        decreases out + 2 - y,
    {
        let yy = y as u32;
        proof {
            lemma_block_fits(fs, s as int, yy as int);
        }
        let mut row: Vec<ConsoleCell> = Vec::new();
        for x in 0..out
            invariant
                s == layout.sample,
                out == layout.output_pixels,
                s >= 1,
                out == max_int(fs / (s as int), 1),
                fs == sheet@.manifest.frame_size,
                frame_fits(sheet@, frame),
                yy == y,
                yy < out,
                yy * s + s <= u32::MAX,
                0 <= yy * s,
                row@.len() == x,
                forall|i: int| 0 <= i < x ==> #[trigger] row@[i] == cell_spec(sheet@, frame, layout, i, yy as int),
        {
            proof {
                lemma_block_fits(fs, s as int, x as int);
                if yy + 1 < out {
                    lemma_block_fits(fs, s as int, (yy + 1) as int);
                }
            }
            let upper = sample_color(sheet, frame, x * s, yy * s, s);
            let lower = if yy + 1 < out {
                sample_color(sheet, frame, x * s, (yy + 1) * s, s)
            } else {
                None
            };
            row.push(ConsoleCell { upper, lower });
        }
        proof {
            assert(row@ =~= pic[(y / 2) as int]);
        }
        rows.push(row);
        y = y + 2;
    }
    rows
}

/// The status shown beside the name.
pub fn status_label(paused: bool) -> (label: &'static str)
    ensures
        label@ == if paused { "paused"@ } else { "wandering"@ },
{
    if paused { "paused" } else { "wandering" }
}

/// The area the console pet roams: eight pixels a column and sixteen a row, of a terminal
/// taken as at least 20 × 10 cells.
pub fn console_bounds(cols: u16, rows: u16, frame_size: u32) -> (bounds: Bounds)
    ensures
        bounds == (Bounds {
            left: 0,
            top: 0,
            width: (max_int(cols as int, 20) * 8) as i32,
            height: (max_int(rows as int, 10) * 16) as i32,
            pet_size: frame_size as i32,
        }),
{
    let c: i32 = if cols > 20 { cols as i32 } else { 20 };
    let r: i32 = if rows > 10 { rows as i32 } else { 10 };
    Bounds::new(c * 8, r * 16, frame_size as i32)
}

/// What the console pet saves when it quits: its pose, mood and pause, with the rest of
/// the configuration (its position too) as it was read.
pub fn console_saved_config(config: AppConfig, snapshot: PetSnapshot) -> (saved: AppConfig)
    ensures
        saved == (AppConfig {
            last_pose: snapshot.animation,
            mood: snapshot.mood,
            paused: snapshot.paused,
            ..config
        }),
{
    AppConfig { last_pose: snapshot.animation, mood: snapshot.mood, paused: snapshot.paused, ..config }
}

proof fn lemma_region_cell(w: int, h: int, k: int)
    requires
        w > 0,
        h > 0,
        0 <= k < w * h,
    ensures
        0 <= k % w < w,
        0 <= k / w < h,
{
    assert(0 <= k / w < h) by (nonlinear_arith)
        requires w > 0, 0 <= k < w * h;
}

proof fn lemma_sums_of_faint(ps: Seq<Rgba>)
    requires
        forall|k: int| 0 <= k < ps.len() ==> (#[trigger] ps[k]).a <= 8,
    ensures
        weighted_sums(ps) == (0int, 0int, 0int, 0int),
    decreases ps.len(),
{
    if ps.len() > 0 {
        assert forall|k: int| 0 <= k < ps.drop_last().len() implies (#[trigger] ps.drop_last()[k]).a <= 8 by {
            assert(ps.drop_last()[k] == ps[k]);
        }
        lemma_sums_of_faint(ps.drop_last());
        assert(ps.last() == ps[ps.len() - 1]);
    }
}

proof fn lemma_sums_of_uniform(ps: Seq<Rgba>, p: Rgba)
    requires
        p.a > 8,
        forall|k: int| 0 <= k < ps.len() ==> #[trigger] ps[k] == p,
    ensures
        weighted_sums(ps) == (
            ps.len() * (p.r * p.a),
            ps.len() * (p.g * p.a),
            ps.len() * (p.b * p.a),
            ps.len() * p.a,
        ),
    decreases ps.len(),
{
    if ps.len() > 0 {
        assert forall|k: int| 0 <= k < ps.drop_last().len() implies #[trigger] ps.drop_last()[k] == p by {
            assert(ps.drop_last()[k] == ps[k]);
        }
        lemma_sums_of_uniform(ps.drop_last(), p);
        assert(ps.last() == ps[ps.len() - 1]);
        let n = ps.len() - 1;
        assert(n * (p.r * p.a) + p.r * p.a == (n + 1) * (p.r * p.a)) by (nonlinear_arith);
        assert(n * (p.g * p.a) + p.g * p.a == (n + 1) * (p.g * p.a)) by (nonlinear_arith);
        assert(n * (p.b * p.a) + p.b * p.a == (n + 1) * (p.b * p.a)) by (nonlinear_arith);
        assert(n * p.a + p.a == (n + 1) * p.a) by (nonlinear_arith);
    }
}

/// A block whose pixels are all nearly transparent (opacity at most 8) shows nothing.
pub proof fn lemma_faint_block_shows_nothing(sheet: SheetView, frame: u16, x_start: u32, y_start: u32, sample: u32)
    requires
        forall|x: int, y: int|
            x_start <= x < x_start + sample && y_start <= y < y_start + sample ==> (#[trigger] sheet.frame_pixel_at(
                frame,
                x,
                y,
            )).a <= 8,
    ensures
        sample_color_spec(sheet, frame, x_start, y_start, sample) is None,
{
    let fs = sheet.manifest.frame_size as int;
    let x_end = min_int(x_start + sample, fs);
    let y_end = min_int(y_start + sample, fs);
    if x_start < x_end && y_start < y_end {
        let w = x_end - x_start;
        let h = y_end - y_start;
        let reg = region(sheet, frame, x_start as int, x_end, y_start as int, y_end);
        assert forall|k: int| 0 <= k < reg.len() implies (#[trigger] reg[k]).a <= 8 by {
            lemma_region_cell(w, h, k);
            assert(reg[k] == sheet.frame_pixel_at(frame, x_start + k % w, y_start + k / w));
        }
        lemma_sums_of_faint(reg);
        assert(w * h > 0) by (nonlinear_arith)
            requires w > 0, h > 0;
    }
}

/// A block of one colour, opaque enough to count and to show, shows that colour.
pub proof fn lemma_uniform_block_shows_its_color(
    sheet: SheetView,
    frame: u16,
    x_start: u32,
    y_start: u32,
    sample: u32,
    p: Rgba,
)
    requires
        p.a >= 18,
        x_start < sheet.manifest.frame_size,
        y_start < sheet.manifest.frame_size,
        sample > 0,
        forall|x: int, y: int|
            x_start <= x < x_start + sample && y_start <= y < y_start + sample ==> #[trigger] sheet.frame_pixel_at(
                frame,
                x,
                y,
            ) == p,
    ensures
        sample_color_spec(sheet, frame, x_start, y_start, sample) == Some(Rgb { r: p.r, g: p.g, b: p.b }),
{
    let fs = sheet.manifest.frame_size as int;
    let x_end = min_int(x_start + sample, fs);
    let y_end = min_int(y_start + sample, fs);
    let w = x_end - x_start;
    let h = y_end - y_start;
    let reg = region(sheet, frame, x_start as int, x_end, y_start as int, y_end);
    assert forall|k: int| 0 <= k < reg.len() implies #[trigger] reg[k] == p by {
        lemma_region_cell(w, h, k);
        assert(reg[k] == sheet.frame_pixel_at(frame, x_start + k % w, y_start + k / w));
    }
    lemma_sums_of_uniform(reg, p);
    let n = w * h;
    assert(n > 0) by (nonlinear_arith)
        requires w > 0, h > 0, n == w * h;
    assert(reg.len() == n);
    assert((n * p.a) / n == p.a) by (nonlinear_arith)
        requires n > 0;
    assert((n * (p.r * p.a)) / (n * p.a) == p.r) by (nonlinear_arith)
        requires n > 0, p.a > 0;
    assert((n * (p.g * p.a)) / (n * p.a) == p.g) by (nonlinear_arith)
        requires n > 0, p.a > 0;
    assert((n * (p.b * p.a)) / (n * p.a) == p.b) by (nonlinear_arith)
        requires n > 0, p.a > 0;
}

} // verus!
