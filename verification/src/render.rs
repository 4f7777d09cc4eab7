use vstd::prelude::*;

use crate::assets::{Rgba, SheetView, SpriteSheet};

verus! {

/// An RGBA canvas, four bytes a pixel, row by row, with premultiplied alpha.
#[derive(Clone, Debug, PartialEq, Eq)]
pub struct Surface {
    pub width: u32,
    pub height: u32,
    pub pixels: Vec<u8>,
}

/// A channel scaled by its alpha.
pub open spec fn premul_spec(channel: u8, alpha: u8) -> int {
    channel * alpha / 255
}

/// `source + destination * inv / 255`, capped at 255.
pub open spec fn over(source: int, destination: u8, inv: int) -> u8 {
    let v = source + destination * inv / 255;
    if v > 255 { 255 } else { v as u8 }
}

/// Channel `c` (red, green, blue, alpha) of the pixel at `base` after drawing `src` over it.
pub open spec fn blended_channel(pixels: Seq<u8>, base: int, c: int, src: Rgba) -> u8 {
    let inv = 255 - src.a;
    let s = if c == 0 {
        premul_spec(src.r, src.a)
    } else if c == 1 {
        premul_spec(src.g, src.a)
    } else if c == 2 {
        premul_spec(src.b, src.a)
    } else {
        src.a as int
    };
    over(s, pixels[base + c], inv)
}

/// The bytes after drawing `src` over pixel `(x, y)`; nothing changes outside the
/// surface or for a fully transparent `src`.
pub open spec fn blend_result(pixels: Seq<u8>, width: int, height: int, x: int, y: int, src: Rgba) -> Seq<u8> {
    if x < 0 || y < 0 || x >= width || y >= height || src.a == 0 {
        pixels
    } else {
        let base = (y * width + x) * 4;
        Seq::new(
            pixels.len(),
            |i: int| if base <= i < base + 4 { blended_channel(pixels, base, i - base, src) } else { pixels[i] },
        )
    }
}

/// `u32::to_ne_bytes`: the word's bytes in the machine's order, least significant first
/// on a little-endian machine, most significant first on a big-endian one. Which one is
/// not stated: it depends on the machine.
#[verifier::external_body]
fn u32_to_ne_bytes(word: u32) -> (bytes: [u8; 4])
    ensures
        bytes@ == seq![(word & 0xff) as u8, ((word >> 8) & 0xff) as u8, ((word >> 16) & 0xff) as u8, (word >> 24) as u8]
            || bytes@ == seq![(word >> 24) as u8, ((word >> 16) & 0xff) as u8, ((word >> 8) & 0xff) as u8, (word & 0xff) as u8],
{
    word.to_ne_bytes()
}

/// Whether the machine stores a word's least significant byte first, read from the bytes
/// of the word 1.
fn little_endian() -> (little: bool) {
    let probe = u32_to_ne_bytes(1);
    probe[0] == 1
}

/// The ARGB words of the pixels (`a << 24 | r << 16 | g << 8 | b`), four bytes each,
/// least significant byte first when `little`, most significant first otherwise.
pub open spec fn argb_bytes(pixels: Seq<u8>, little: bool) -> Seq<u8> {
    Seq::new(
        (pixels.len() / 4 * 4) as nat,
        |i: int|
            {
                let base = i / 4 * 4;
                let c = i % 4;
                let source = if little {
                    if c == 0 { 2int } else if c == 1 { 1 } else if c == 2 { 0 } else { 3 }
                } else {
                    if c == 0 { 3int } else if c == 1 { 0 } else if c == 2 { 1 } else { 2 }
                };
                pixels[base + source]
            },
    )
}

proof fn lemma_byte_index(p: int, c: int)
    requires
        0 <= p,
        0 <= c < 4,
    ensures
        (4 * p + c) / 4 * 4 == 4 * p,
        (4 * p + c) % 4 == c,
{
    vstd::arithmetic::div_mod::lemma_fundamental_div_mod_converse(4 * p + c, 4, p, c);
}

fn premul(channel: u8, alpha: u8) -> (r: u16)
    ensures
        r == premul_spec(channel, alpha),
        r <= 255,
{
    assert((channel as int) * (alpha as int) <= 255 * 255) by (nonlinear_arith)
        requires channel <= 255, alpha <= 255;
    (channel as u16) * (alpha as u16) / 255
}

impl Surface {
    /// The pixel bytes fill the surface, and byte offsets fit in `u32`.
    pub open spec fn wf(&self) -> bool {
        &&& self.pixels@.len() == self.width * self.height * 4
        &&& self.width * self.height * 4 <= u32::MAX
    }

    pub fn new(width: u32, height: u32) -> (s: Self)
        requires
            width * height * 4 <= u32::MAX,
        ensures
            s.wf(),
            s.width == width,
            s.height == height,
            s.pixels@ == Seq::new((width * height * 4) as nat, |i: int| 0u8),
    {
        assert(width * height <= width * height * 4);
        let len = width * height * 4;
        let pixels = vec![0u8; len as usize];
        assert(pixels@ =~= Seq::new((width * height * 4) as nat, |i: int| 0u8));
        Self { width, height, pixels }
    }

    /// Makes every byte zero: a fully transparent surface.
    pub fn clear(&mut self)
        ensures
            final(self).width == old(self).width,
            final(self).height == old(self).height,
            final(self).pixels@ == Seq::new(old(self).pixels@.len(), |i: int| 0u8),
    {
        let n = self.pixels.len();
        for i in 0..n
            invariant
                n == self.pixels@.len(),
                self.width == old(self).width,
                self.height == old(self).height,
                n == old(self).pixels@.len(),
                forall|j: int| 0 <= j < i ==> self.pixels@[j] == 0u8,
        {
            self.pixels.set(i, 0);
        }
        assert(self.pixels@ =~= Seq::new(old(self).pixels@.len(), |i: int| 0u8));
    }

    /// Draws `src` over the pixel at `(x, y)`, in premultiplied alpha.
    pub fn blend_pixel(&mut self, x: i32, y: i32, src: Rgba)
        requires
            old(self).wf(),
        ensures
            final(self).wf(),
            final(self).width == old(self).width,
            final(self).height == old(self).height,
            final(self).pixels@ == blend_result(
                old(self).pixels@,
                old(self).width as int,
                old(self).height as int,
                x as int,
                y as int,
                src,
            ),
    {
        if x < 0 || y < 0 || (x as i64) >= (self.width as i64) || (y as i64) >= (self.height as i64) || src.a == 0 {
            return;
        }
        let ghost old_pixels = self.pixels@;
        proof {
            assert((y as int) * (self.width as int) + (x as int) < (self.width as int) * (self.height as int))
                by (nonlinear_arith)
                requires 0 <= x < self.width, 0 <= y < self.height;
            assert(0 <= (y as int) * (self.width as int)) by (nonlinear_arith)
                requires 0 <= y, 0 <= self.width;
        }
        let index = (((y as u32) * self.width + (x as u32)) * 4) as usize;
        let sa = src.a as u16;
        let inv = 255 - sa;

        let sr = premul(src.r, src.a);
        let sg = premul(src.g, src.a);
        let sb = premul(src.b, src.a);

        let dr = self.pixels[index] as u16;
        let dg = self.pixels[index + 1] as u16;
        let db = self.pixels[index + 2] as u16;
        let da = self.pixels[index + 3] as u16;
        proof {
            assert(dr * inv <= 255 * 255 && dg * inv <= 255 * 255 && db * inv <= 255 * 255 && da * inv <= 255 * 255)
                by (nonlinear_arith)
                requires dr <= 255, dg <= 255, db <= 255, da <= 255, inv <= 255;
        }
        self.pixels.set(index, cap_byte(sr + dr * inv / 255));
        self.pixels.set(index + 1, cap_byte(sg + dg * inv / 255));
        self.pixels.set(index + 2, cap_byte(sb + db * inv / 255));
        self.pixels.set(index + 3, cap_byte(sa + da * inv / 255));
        proof {
            let expected = blend_result(old_pixels, self.width as int, self.height as int, x as int, y as int, src);
            assert(self.pixels@ =~= expected);
        }
    }

    /// The pixels with red and blue swapped, four bytes (blue, green, red, alpha) each, as a
    /// device-independent bitmap holds them.
    pub fn as_bgra8888(&self) -> (out: Vec<u8>)
        ensures
            out@.len() == self.pixels@.len() / 4 * 4,
            forall|p: int|
                0 <= p < self.pixels@.len() / 4 ==> #[trigger] out@.subrange(4 * p, 4 * p + 4) == seq![
                    self.pixels@[4 * p + 2],
                    self.pixels@[4 * p + 1],
                    self.pixels@[4 * p],
                    self.pixels@[4 * p + 3],
                ],
    {
        let mut out: Vec<u8> = Vec::with_capacity(self.pixels.len());
        let n = self.pixels.len();
        let count = n / 4;
        for p in 0..count
            invariant
                n == self.pixels@.len(),
                count == n / 4,
                out@.len() == 4 * p,
                forall|q: int|
                    0 <= q < p ==> #[trigger] out@.subrange(4 * q, 4 * q + 4) == seq![
                        self.pixels@[4 * q + 2],
                        self.pixels@[4 * q + 1],
                        self.pixels@[4 * q],
                        self.pixels@[4 * q + 3],
                    ],
        {
            let ghost before = out@;
            out.push(self.pixels[4 * p + 2]);
            out.push(self.pixels[4 * p + 1]);
            out.push(self.pixels[4 * p]);
            out.push(self.pixels[4 * p + 3]);
            proof {
                assert(out@.subrange(4 * p as int, 4 * p + 4) =~= seq![
                    self.pixels@[4 * p + 2],
                    self.pixels@[4 * p + 1],
                    self.pixels@[4 * p as int],
                    self.pixels@[4 * p + 3],
                ]);
                assert forall|q: int| 0 <= q < p implies #[trigger] out@.subrange(4 * q, 4 * q + 4) == before.subrange(4 * q, 4 * q + 4) by {
                    assert(out@.subrange(4 * q, 4 * q + 4) =~= before.subrange(4 * q, 4 * q + 4));
                }
            }
        }
        out
    }

    /// The pixels as native-endian ARGB words: each pixel becomes the bytes of
    /// `a << 24 | r << 16 | g << 8 | b` in the machine's byte order, the same order for
    /// every pixel.
    pub fn as_argb8888_native_endian(&self) -> (out: Vec<u8>)
        ensures
            out@ == argb_bytes(self.pixels@, true) || out@ == argb_bytes(self.pixels@, false),
    {
        let little = little_endian();
        let mut out: Vec<u8> = Vec::with_capacity(self.pixels.len());
        let n = self.pixels.len();
        let count = n / 4;
        let ghost expected = argb_bytes(self.pixels@, little);
        for p in 0..count
            invariant
                n == self.pixels@.len(),
                count == n / 4,
                expected == argb_bytes(self.pixels@, little),
                out@.len() == 4 * p,
                forall|i: int| 0 <= i < out@.len() ==> #[trigger] out@[i] == expected[i],
        {
            let r = self.pixels[4 * p];
            let g = self.pixels[4 * p + 1];
            let b = self.pixels[4 * p + 2];
            let a = self.pixels[4 * p + 3];
            proof {
                lemma_byte_index(p as int, 0);
                lemma_byte_index(p as int, 1);
                lemma_byte_index(p as int, 2);
                lemma_byte_index(p as int, 3);
                assert(4 * p + 4 <= count * 4) by (nonlinear_arith)
                    requires p < count;
                assert(count * 4 <= n) by (nonlinear_arith)
                    requires count == n / 4;
            }
            if little {
                out.push(b);
                out.push(g);
                out.push(r);
                out.push(a);
            } else {
                out.push(a);
                out.push(r);
                out.push(g);
                out.push(b);
            }
        }
        proof {
            assert(expected.len() == count * 4);
            assert(out@ =~= expected);
        }
        out
    }
}

fn cap_byte(v: u16) -> (r: u8)
    ensures
        r == (if v > 255 { 255 } else { v as int }),
{
    if v > 255 { 255 } else { v as u8 }
}


/// A sprite pixel with its opacity scaled by `alpha` (255 leaves it as is).
pub open spec fn faded(src: Rgba, alpha: u8) -> Rgba {
    Rgba { a: (src.a * alpha / 255) as u8, ..src }
}

/// Lexicographic order on (row, column, block row, block column) positions.
pub open spec fn before(a: (int, int, int, int), b: (int, int, int, int)) -> bool {
    ||| a.0 < b.0
    ||| a.0 == b.0 && a.1 < b.1
    ||| a.0 == b.0 && a.1 == b.1 && a.2 < b.2
    ||| a.0 == b.0 && a.1 == b.1 && a.2 == b.2 && a.3 < b.3
}

/// A blit's scale: at least 1.
pub open spec fn effective_scale(scale: u32) -> int {
    if scale > 1 { scale as int } else { 1 }
}

/// The surface bytes once a frame drawn at `(x, y)`, each sprite pixel as a
/// `scale` × `scale` block, has been drawn up to block position `upto`.
pub open spec fn blit_upto(
    pixels: Seq<u8>,
    width: int,
    sheet: SheetView,
    frame: u16,
    x: int,
    y: int,
    scale: int,
    alpha: u8,
    upto: (int, int, int, int),
) -> Seq<u8> {
    let size = sheet.manifest.frame_size * scale;
    Seq::new(
        pixels.len(),
        |i: int|
            {
                let p = i / 4;
                let rx = p % width - x;
                let ry = p / width - y;
                if 0 <= rx < size && 0 <= ry < size && before((ry / scale, rx / scale, ry % scale, rx % scale), upto) {
                    let src = faded(sheet.frame_pixel_at(frame, rx / scale, ry / scale), alpha);
                    if src.a == 0 {
                        pixels[i]
                    } else {
                        blended_channel(pixels, p * 4, i % 4, src)
                    }
                } else {
                    pixels[i]
                }
            },
    )
}

/// The surface bytes after drawing a frame at `(x, y)`, each sprite pixel scaled to a
/// block and faded by `alpha`: every covered surface pixel gets its sprite pixel drawn
/// over it once; all other bytes stay.
pub open spec fn blit_result(
    pixels: Seq<u8>,
    width: int,
    sheet: SheetView,
    frame: u16,
    x: int,
    y: int,
    scale: u32,
    alpha: u8,
) -> Seq<u8> {
    blit_upto(pixels, width, sheet, frame, x, y, effective_scale(scale), alpha, (sheet.manifest.frame_size as int, 0, 0, 0))
}

/// The surface coordinates of a block, the sprite pixel `(sx, sy)` drawn at `(x, y)` at
/// scale `s`, stay within `i32`.
pub open spec fn block_fits(x: int, y: int, sx: int, sy: int, s: int) -> bool {
    &&& sx * s + s - 1 <= i32::MAX
    &&& sy * s + s - 1 <= i32::MAX
    &&& x + sx * s + s - 1 <= i32::MAX
    &&& y + sy * s + s - 1 <= i32::MAX
}

/// A blit whose arithmetic stays within the integer types: every pixel of the frame has
/// sheet coordinates within `u32`, and every block that is drawn, that of a sprite pixel
/// that the fade by `alpha` leaves visible, has surface coordinates within `i32`.
pub open spec fn blit_fits(sheet: SheetView, frame: u16, x: i32, y: i32, scale: u32, alpha: u8) -> bool {
    let fs = sheet.manifest.frame_size as int;
    let s = effective_scale(scale);
    fs == 0 || {
        &&& sheet.manifest.sheet_columns > 0
        &&& sheet.frame_origin(frame).0 + fs - 1 <= u32::MAX
        &&& sheet.frame_origin(frame).1 + fs - 1 <= u32::MAX
        &&& forall|sx: int, sy: int|
            #![trigger sheet.frame_pixel_at(frame, sx, sy)]
            0 <= sx < fs && 0 <= sy < fs && faded(sheet.frame_pixel_at(frame, sx, sy), alpha).a != 0 ==> block_fits(
                x as int,
                y as int,
                sx,
                sy,
                s,
            )
    }
}

/// A whole frame drawn at `(x, y)` at `scale` stays within the integer types, whatever
/// its pixels.
pub open spec fn frame_blit_fits(sheet: SheetView, frame: u16, x: i32, y: i32, scale: u32) -> bool {
    let fs = sheet.manifest.frame_size as int;
    let s = effective_scale(scale);
    fs == 0 || {
        &&& sheet.manifest.sheet_columns > 0
        &&& sheet.frame_origin(frame).0 + fs - 1 <= u32::MAX
        &&& sheet.frame_origin(frame).1 + fs - 1 <= u32::MAX
        &&& fs * s <= i32::MAX
        &&& x + fs * s - 1 <= i32::MAX
        &&& y + fs * s - 1 <= i32::MAX
    }
}

/// A frame that fits whole fits at every opacity.
pub proof fn lemma_frame_blit_fits(sheet: SheetView, frame: u16, x: i32, y: i32, scale: u32, alpha: u8)
    requires
        frame_blit_fits(sheet, frame, x, y, scale),
    ensures
        blit_fits(sheet, frame, x, y, scale, alpha),
{
    let fs = sheet.manifest.frame_size as int;
    let s = effective_scale(scale);
    assert forall|sx: int, sy: int|
        #![trigger sheet.frame_pixel_at(frame, sx, sy)]
        0 <= sx < fs && 0 <= sy < fs && faded(sheet.frame_pixel_at(frame, sx, sy), alpha).a != 0 implies block_fits(
            x as int,
            y as int,
            sx,
            sy,
            s,
        ) by {
        assert(sx * s + s <= fs * s && sy * s + s <= fs * s) by (nonlinear_arith)
            requires 0 <= sx < fs, 0 <= sy < fs, s >= 1;
    }
}

/// Where pixel byte `i` of a `width`-wide surface lies.
proof fn lemma_pixel_coords(i: int, width: int, height: int)
    requires
        0 <= i < width * height * 4,
        width >= 0,
        height >= 0,
    ensures
        width > 0,
        0 <= (i / 4) % width < width,
        0 <= (i / 4) / width < height,
        i / 4 == ((i / 4) / width) * width + (i / 4) % width,
        0 <= i % 4 < 4,
        i == (i / 4) * 4 + i % 4,
{
    assert(width > 0) by (nonlinear_arith)
        requires 0 <= i < width * height * 4, width >= 0, height >= 0;
    let p = i / 4;
    vstd::arithmetic::div_mod::lemma_fundamental_div_mod(i, 4);
    vstd::arithmetic::div_mod::lemma_mod_pos_bound(i, 4);
    assert(p < width * height) by (nonlinear_arith)
        requires p == i / 4, 0 <= i < width * height * 4, i == 4 * p + i % 4, 0 <= i % 4 < 4;
    vstd::arithmetic::div_mod::lemma_fundamental_div_mod(p, width);
    vstd::arithmetic::div_mod::lemma_mod_pos_bound(p, width);
    vstd::arithmetic::div_mod::lemma_div_pos_is_pos(p, width);
    assert((i / 4) / width < height) by (nonlinear_arith)
        requires p == i / 4, 0 <= p < width * height, p == width * (p / width) + p % width, 0 <= p % width, width > 0;
    assert(i / 4 == ((i / 4) / width) * width + (i / 4) % width) by (nonlinear_arith)
        requires p == i / 4, p == width * (p / width) + p % width;
}

/// Quotient and remainder of `q * d + r` for `0 <= r < d`.
proof fn lemma_div_mod_of(q: int, d: int, r: int)
    requires
        d > 0,
        0 <= r < d,
    ensures
        (q * d + r) / d == q,
        (q * d + r) % d == r,
{
    vstd::arithmetic::div_mod::lemma_fundamental_div_mod_converse(q * d + r, d, q, r);
}

/// A nonnegative offset splits into a block and a place in the block.
proof fn lemma_split(r: int, s: int, fs: int)
    requires
        0 <= r < fs * s,
        s > 0,
    ensures
        r == (r / s) * s + r % s,
        0 <= r % s < s,
        0 <= r / s < fs,
{
    vstd::arithmetic::div_mod::lemma_fundamental_div_mod(r, s);
    vstd::arithmetic::div_mod::lemma_mod_pos_bound(r, s);
    vstd::arithmetic::div_mod::lemma_div_pos_is_pos(r, s);
    assert(r / s < fs) by (nonlinear_arith)
        requires r == s * (r / s) + r % s, 0 <= r % s, r < fs * s, s > 0;
    assert(r == (r / s) * s + r % s) by (nonlinear_arith)
        requires r == s * (r / s) + r % s;
}

/// Drawing the block pixel at `(sy, sx, oy, ox)` advances the blit by one position.
proof fn lemma_blit_step(
    pixels: Seq<u8>,
    width: int,
    height: int,
    sheet: SheetView,
    frame: u16,
    x: int,
    y: int,
    s: int,
    alpha: u8,
    sy: int,
    sx: int,
    oy: int,
    ox: int,
)
    requires
        pixels.len() == width * height * 4,
        width >= 0,
        height >= 0,
        s >= 1,
        0 <= sy < sheet.manifest.frame_size,
        0 <= sx < sheet.manifest.frame_size,
        0 <= oy < s,
        0 <= ox < s,
        faded(sheet.frame_pixel_at(frame, sx, sy), alpha).a != 0,
    ensures
        blend_result(
            blit_upto(pixels, width, sheet, frame, x, y, s, alpha, (sy, sx, oy, ox)),
            width,
            height,
            x + sx * s + ox,
            y + sy * s + oy,
            faded(sheet.frame_pixel_at(frame, sx, sy), alpha),
        ) == blit_upto(pixels, width, sheet, frame, x, y, s, alpha, (sy, sx, oy, ox + 1)),
{
    let cur = blit_upto(pixels, width, sheet, frame, x, y, s, alpha, (sy, sx, oy, ox));
    let next = blit_upto(pixels, width, sheet, frame, x, y, s, alpha, (sy, sx, oy, ox + 1));
    let src = faded(sheet.frame_pixel_at(frame, sx, sy), alpha);
    let dx = x + sx * s + ox;
    let dy = y + sy * s + oy;
    let size = sheet.manifest.frame_size * s;
    let got = blend_result(cur, width, height, dx, dy, src);
    assert((sx + 1) * s <= size && (sy + 1) * s <= size) by (nonlinear_arith)
        requires sx + 1 <= sheet.manifest.frame_size, sy + 1 <= sheet.manifest.frame_size, s >= 1,
            size == sheet.manifest.frame_size * s;
    assert((sx + 1) * s == sx * s + s && (sy + 1) * s == sy * s + s) by (nonlinear_arith);
    assert(0 <= sx * s && 0 <= sy * s) by (nonlinear_arith)
        requires sx >= 0, sy >= 0, s >= 1;
    lemma_div_mod_of(sx, s, ox);
    lemma_div_mod_of(sy, s, oy);
    let inside = 0 <= dx < width && 0 <= dy < height;
    assert forall|i: int| 0 <= i < pixels.len() implies got[i] == next[i] by {
        let p = i / 4;
        lemma_pixel_coords(i, width, height);
        let px = p % width;
        let py = p / width;
        let rx = px - x;
        let ry = py - y;
        if 0 <= rx < size && 0 <= ry < size {
            lemma_split(rx, s, sheet.manifest.frame_size as int);
            lemma_split(ry, s, sheet.manifest.frame_size as int);
        }
        let here = 0 <= rx < size && 0 <= ry < size && (ry / s, rx / s, ry % s, rx % s) == (sy, sx, oy, ox);
        if here {
            assert(px == dx && py == dy);
            assert(inside);
            assert(p == dy * width + dx);
            let base = (dy * width + dx) * 4;
            assert(base <= i < base + 4);
            assert forall|c: int| 0 <= c < 4 implies #[trigger] cur[base + c] == pixels[base + c] by {
                assert((base + c) / 4 == p) by {
                    lemma_div_mod_of(p, 4, c);
                }
            }
            assert(i - base == i % 4);
        } else {
            if inside {
                let base = (dy * width + dx) * 4;
                if base <= i < base + 4 {
                    lemma_div_mod_of(dy * width + dx, 4, i - base);
                    assert(p == dy * width + dx);
                    lemma_div_mod_of(dy, width, dx);
                    assert(px == dx && py == dy);
                    assert(false);
                }
            }
        }
    }
    assert(got =~= next);
}

/// Positions past the last block column, block row or sprite column carry over.
proof fn lemma_blit_carry(
    pixels: Seq<u8>,
    width: int,
    height: int,
    sheet: SheetView,
    frame: u16,
    x: int,
    y: int,
    s: int,
    alpha: u8,
    a: (int, int, int, int),
    b: (int, int, int, int),
)
    requires
        pixels.len() == width * height * 4,
        s >= 1,
        forall|t: (int, int, int, int)|
            0 <= t.0 < sheet.manifest.frame_size && 0 <= t.1 < sheet.manifest.frame_size && 0 <= t.2 < s && 0 <= t.3
                < s ==> (before(t, a) <==> before(t, b)),
    ensures
        blit_upto(pixels, width, sheet, frame, x, y, s, alpha, a) == blit_upto(pixels, width, sheet, frame, x, y, s, alpha, b),
{
    let l = blit_upto(pixels, width, sheet, frame, x, y, s, alpha, a);
    let r = blit_upto(pixels, width, sheet, frame, x, y, s, alpha, b);
    assert forall|i: int| 0 <= i < pixels.len() implies l[i] == r[i] by {
        let p = i / 4;
        let rx = p % width - x;
        let ry = p / width - y;
        let size = sheet.manifest.frame_size * s;
        if 0 <= rx < size && 0 <= ry < size {
            lemma_split(rx, s, sheet.manifest.frame_size as int);
            lemma_split(ry, s, sheet.manifest.frame_size as int);
            let t = (ry / s, rx / s, ry % s, rx % s);
            assert(before(t, a) <==> before(t, b));
        }
    }
    assert(l =~= r);
}

/// A sprite pixel that the fade makes invisible leaves its whole block as it was.
proof fn lemma_blit_skip(
    pixels: Seq<u8>,
    width: int,
    height: int,
    sheet: SheetView,
    frame: u16,
    x: int,
    y: int,
    s: int,
    alpha: u8,
    sy: int,
    sx: int,
)
    requires
        pixels.len() == width * height * 4,
        s >= 1,
        faded(sheet.frame_pixel_at(frame, sx, sy), alpha).a == 0,
    ensures
        blit_upto(pixels, width, sheet, frame, x, y, s, alpha, (sy, sx, 0, 0)) == blit_upto(
            pixels,
            width,
            sheet,
            frame,
            x,
            y,
            s,
            alpha,
            (sy, sx + 1, 0, 0),
        ),
{
    let l = blit_upto(pixels, width, sheet, frame, x, y, s, alpha, (sy, sx, 0, 0));
    let r = blit_upto(pixels, width, sheet, frame, x, y, s, alpha, (sy, sx + 1, 0, 0));
    assert forall|i: int| 0 <= i < pixels.len() implies l[i] == r[i] by {
        let p = i / 4;
        let rx = p % width - x;
        let ry = p / width - y;
        let size = sheet.manifest.frame_size * s;
        if 0 <= rx < size && 0 <= ry < size {
            lemma_split(rx, s, sheet.manifest.frame_size as int);
            lemma_split(ry, s, sheet.manifest.frame_size as int);
        }
    }
    assert(l =~= r);
}

impl Surface {
    /// Draws a frame of the sheet with its top-left corner at `(x, y)`, every sprite pixel
    /// as a `scale` × `scale` block (a scale of 0 counts as 1).
    pub fn blit_frame(&mut self, sheet: &SpriteSheet, frame: u16, x: i32, y: i32, scale: u32)
        requires
            old(self).wf(),
            blit_fits(sheet@, frame, x, y, scale, 255),
        ensures
            final(self).wf(),
            final(self).width == old(self).width,
            final(self).height == old(self).height,
            final(self).pixels@ == blit_result(old(self).pixels@, old(self).width as int, sheet@, frame, x as int, y as int, scale, 255),
            final(self).pixels@ == blend_loop(
                old(self).pixels@,
                old(self).width as int,
                old(self).height as int,
                sheet@,
                frame,
                x as int,
                y as int,
                effective_scale(scale),
                255,
                (sheet@.manifest.frame_size * sheet@.manifest.frame_size * effective_scale(scale) * effective_scale(scale)) as nat,
            ),
    {
        let ghost before = self.pixels@;
        self.blit_scaled(sheet, frame, x, y, scale, 255);
        proof {
            lemma_blit_is_blend_loop(before, self.width as int, self.height as int, sheet@, frame, x as int, y as int, scale, 255);
        }
    }

    /// As `blit_frame`, with every sprite pixel's opacity scaled by `alpha / 255`.
    pub fn blit_frame_with_alpha(&mut self, sheet: &SpriteSheet, frame: u16, x: i32, y: i32, scale: u32, alpha: u8)
        requires
            old(self).wf(),
            blit_fits(sheet@, frame, x, y, scale, alpha),
        ensures
            final(self).wf(),
            final(self).width == old(self).width,
            final(self).height == old(self).height,
            final(self).pixels@ == blit_result(old(self).pixels@, old(self).width as int, sheet@, frame, x as int, y as int, scale, alpha),
            final(self).pixels@ == blend_loop(
                old(self).pixels@,
                old(self).width as int,
                old(self).height as int,
                sheet@,
                frame,
                x as int,
                y as int,
                effective_scale(scale),
                alpha,
                (sheet@.manifest.frame_size * sheet@.manifest.frame_size * effective_scale(scale) * effective_scale(scale)) as nat,
            ),
            final(self).pixels@ == blit_result(
                old(self).pixels@,
                old(self).width as int,
                faded_sheet(sheet@, alpha),
                frame,
                x as int,
                y as int,
                scale,
                255,
            ),
            alpha == 0 ==> final(self).pixels@ == old(self).pixels@,
    {
        let ghost before = self.pixels@;
        self.blit_scaled(sheet, frame, x, y, scale, alpha);
        proof {
            lemma_blit_is_blend_loop(before, self.width as int, self.height as int, sheet@, frame, x as int, y as int, scale, alpha);
            lemma_faded_blit_is_blit_of_faded_sheet(before, self.width as int, sheet@, frame, x as int, y as int, scale, alpha);
            lemma_invisible_blit_is_noop(before, self.width as int, sheet@, frame, x as int, y as int, scale);
        }
    }

    fn blit_scaled(&mut self, sheet: &SpriteSheet, frame: u16, x: i32, y: i32, scale: u32, alpha: u8)
        requires
            old(self).wf(),
            blit_fits(sheet@, frame, x, y, scale, alpha),
        ensures
            final(self).wf(),
            final(self).width == old(self).width,
            final(self).height == old(self).height,
            final(self).pixels@ == blit_result(old(self).pixels@, old(self).width as int, sheet@, frame, x as int, y as int, scale, alpha),
            sheet@.pixels.len() == sheet@.width * sheet@.height,
    {
        let frame_size = sheet.frame_size();
        let s = if scale > 1 { scale } else { 1 };
        let ghost orig = self.pixels@;
        let ghost w = self.width as int;
        let ghost h = self.height as int;
        let ghost sv = sheet@;
        let ghost si = s as int;
        assert(orig.len() == w * h * 4);
        for sy in 0..frame_size
            invariant
                self.wf(),
                self.width == w,
                self.height == h,
                orig.len() == w * h * 4,
                frame_size == sv.manifest.frame_size,
                sv == sheet@,
                si == s,
                s >= 1,
                s == effective_scale(scale),
                blit_fits(sv, frame, x, y, scale, alpha),
                self.pixels@ == blit_upto(orig, w, sv, frame, x as int, y as int, si, alpha, (sy as int, 0, 0, 0)),
        {
            for sx in 0..frame_size
                invariant
                    self.wf(),
                    self.width == w,
                    self.height == h,
                    orig.len() == w * h * 4,
                    frame_size == sv.manifest.frame_size,
                    sv == sheet@,
                    si == s,
                    s >= 1,
                    s == effective_scale(scale),
                    blit_fits(sv, frame, x, y, scale, alpha),
                    0 <= sy < frame_size,
                    self.pixels@ == blit_upto(orig, w, sv, frame, x as int, y as int, si, alpha, (sy as int, sx as int, 0, 0)),
            {
                assert(frame_size > 0);
                assert(sv.manifest.sheet_columns > 0);
                let mut src = sheet.frame_pixel(frame, sx, sy);
                assert((src.a as u16) * (alpha as u16) <= 255 * 255) by (nonlinear_arith)
                    requires src.a <= 255, alpha <= 255;
                src.a = ((src.a as u16 * alpha as u16) / 255) as u8;
                assert(src == faded(sv.frame_pixel_at(frame, sx as int, sy as int), alpha));
                if src.a == 0 {
                    proof {
                        lemma_blit_skip(orig, w, h, sv, frame, x as int, y as int, si, alpha, sy as int, sx as int);
                    }
                } else {
                assert(block_fits(x as int, y as int, sx as int, sy as int, si));
                assert(0 <= sx * s && 0 <= sy * s) by (nonlinear_arith)
                    requires s >= 1;
                let dx0 = x + (sx * s) as i32;
                let dy0 = y + (sy * s) as i32;
                for oy in 0..s
                    invariant
                        self.wf(),
                        self.width == w,
                        self.height == h,
                        orig.len() == w * h * 4,
                        frame_size == sv.manifest.frame_size,
                        si == s,
                        s >= 1,
                        0 <= sy < frame_size,
                        0 <= sx < frame_size,
                        src == faded(sv.frame_pixel_at(frame, sx as int, sy as int), alpha),
                        src.a != 0,
                        dx0 == x + sx * s,
                        dy0 == y + sy * s,
                        block_fits(x as int, y as int, sx as int, sy as int, si),
                        self.pixels@ == blit_upto(orig, w, sv, frame, x as int, y as int, si, alpha, (sy as int, sx as int, oy as int, 0)),
                {
                    for ox in 0..s
                        invariant
                            self.wf(),
                            self.width == w,
                            self.height == h,
                            orig.len() == w * h * 4,
                            frame_size == sv.manifest.frame_size,
                            si == s,
                            s >= 1,
                            0 <= sy < frame_size,
                            0 <= sx < frame_size,
                            0 <= oy < s,
                            src == faded(sv.frame_pixel_at(frame, sx as int, sy as int), alpha),
                            src.a != 0,
                            dx0 == x + sx * s,
                            dy0 == y + sy * s,
                            block_fits(x as int, y as int, sx as int, sy as int, si),
                            self.pixels@ == blit_upto(orig, w, sv, frame, x as int, y as int, si, alpha, (sy as int, sx as int, oy as int, ox as int)),
                    {
                        proof {
                            lemma_blit_step(orig, w, h, sv, frame, x as int, y as int, si, alpha, sy as int, sx as int, oy as int, ox as int);
                        }
                        self.blend_pixel(dx0 + ox as i32, dy0 + oy as i32, src);
                    }
                    proof {
                        lemma_blit_carry(orig, w, h, sv, frame, x as int, y as int, si, alpha,
                            (sy as int, sx as int, oy as int, si), (sy as int, sx as int, oy + 1, 0));
                    }
                }
                proof {
                    lemma_blit_carry(orig, w, h, sv, frame, x as int, y as int, si, alpha,
                        (sy as int, sx as int, si, 0), (sy as int, sx + 1, 0, 0));
                }
                }
            }
            proof {
                lemma_blit_carry(orig, w, h, sv, frame, x as int, y as int, si, alpha,
                    (sy as int, frame_size as int, 0, 0), (sy + 1, 0, 0, 0));
            }
        }
    }
}


/// Drawing a fully opaque pixel replaces what was there.
pub proof fn lemma_opaque_blend_replaces(pixels: Seq<u8>, width: int, height: int, x: int, y: int, src: Rgba)
    requires
        src.a == 255,
        0 <= x < width,
        0 <= y < height,
        pixels.len() == width * height * 4,
    ensures
        ({
            let r = blend_result(pixels, width, height, x, y, src);
            let base = (y * width + x) * 4;
            &&& r[base] == src.r
            &&& r[base + 1] == src.g
            &&& r[base + 2] == src.b
            &&& r[base + 3] == 255
        }),
{
    assert((y * width + x) * 4 + 3 < width * height * 4) by (nonlinear_arith)
        requires 0 <= x < width, 0 <= y < height;
    assert(0 <= (y * width + x) * 4) by (nonlinear_arith)
        requires 0 <= x, 0 <= y, 0 <= width;
    assert(src.r * 255 / 255 == src.r && src.g * 255 / 255 == src.g && src.b * 255 / 255 == src.b) by (nonlinear_arith);
}

/// Drawing over a pixel never makes it more transparent.
pub proof fn lemma_blend_keeps_opacity(pixels: Seq<u8>, width: int, height: int, x: int, y: int, src: Rgba, p: int)
    requires
        pixels.len() == width * height * 4,
        0 <= p < width * height,
    ensures
        blend_result(pixels, width, height, x, y, src)[4 * p + 3] >= pixels[4 * p + 3],
{
    if !(x < 0 || y < 0 || x >= width || y >= height || src.a == 0) {
        let base = (y * width + x) * 4;
        if base <= 4 * p + 3 < base + 4 {
            let sa = src.a as int;
            let da = pixels[4 * p + 3] as int;
            assert(sa + da * (255 - sa) / 255 >= da) by (nonlinear_arith)
                requires 0 <= sa <= 255, 0 <= da <= 255;
            assert(4 * p + 3 - base == 3);
        }
    }
}

/// A fully transparent pixel leaves the surface as it was.
pub proof fn lemma_transparent_blend_is_noop(pixels: Seq<u8>, width: int, height: int, x: int, y: int, src: Rgba)
    requires
        src.a == 0,
    ensures
        blend_result(pixels, width, height, x, y, src) == pixels,
{
}

/// A frame drawn with no opacity leaves the surface as it was.
pub proof fn lemma_invisible_blit_is_noop(pixels: Seq<u8>, width: int, sheet: SheetView, frame: u16, x: int, y: int, scale: u32)
    ensures
        blit_result(pixels, width, sheet, frame, x, y, scale, 0) == pixels,
{
    let r = blit_result(pixels, width, sheet, frame, x, y, scale, 0);
    assert forall|i: int| 0 <= i < pixels.len() implies r[i] == pixels[i] by {
        let p = i / 4;
        let s = effective_scale(scale);
        let rx = p % width - x;
        let ry = p / width - y;
        let src = sheet.frame_pixel_at(frame, rx / s, ry / s);
        assert(src.a * 0 / 255 == 0);
    }
    assert(r =~= pixels);
}

/// Where the `k`-th step of drawing a frame block by block lands: sprite row, sprite
/// column, row in the block, column in the block.
pub open spec fn blit_position(k: int, fs: int, s: int) -> (int, int, int, int) {
    (k / (fs * s * s), (k / (s * s)) % fs, (k / s) % s, k % s)
}

/// The step at which a block position is drawn.
pub open spec fn blit_rank(t: (int, int, int, int), fs: int, s: int) -> int {
    ((t.0 * fs + t.1) * s + t.2) * s + t.3
}

/// The surface bytes after the first `n` steps of drawing a frame pixel by pixel, as a
/// loop over sprite rows, sprite columns, block rows and block columns does it: at each
/// step the faded sprite pixel, when not fully transparent, is blended at its place with
/// `blend_result`.
pub open spec fn blend_loop(
    pixels: Seq<u8>,
    width: int,
    height: int,
    sheet: SheetView,
    frame: u16,
    x: int,
    y: int,
    s: int,
    alpha: u8,
    n: nat,
) -> Seq<u8>
    decreases n,
{
    if n == 0 {
        pixels
    } else {
        let drawn = blend_loop(pixels, width, height, sheet, frame, x, y, s, alpha, (n - 1) as nat);
        let t = blit_position(n - 1, sheet.manifest.frame_size as int, s);
        let src = faded(sheet.frame_pixel_at(frame, t.1, t.0), alpha);
        if src.a > 0 {
            blend_result(drawn, width, height, x + t.1 * s + t.3, y + t.0 * s + t.2, src)
        } else {
            drawn
        }
    }
}

/// The surface bytes once the pixels drawn in the first `n` steps have been drawn.
spec fn blit_first(pixels: Seq<u8>, width: int, sheet: SheetView, frame: u16, x: int, y: int, s: int, alpha: u8, n: int) -> Seq<u8> {
    let fs = sheet.manifest.frame_size as int;
    let size = fs * s;
    Seq::new(
        pixels.len(),
        |i: int|
            {
                let p = i / 4;
                let rx = p % width - x;
                let ry = p / width - y;
                if 0 <= rx < size && 0 <= ry < size && blit_rank((ry / s, rx / s, ry % s, rx % s), fs, s) < n {
                    let src = faded(sheet.frame_pixel_at(frame, rx / s, ry / s), alpha);
                    if src.a == 0 {
                        pixels[i]
                    } else {
                        blended_channel(pixels, p * 4, i % 4, src)
                    }
                } else {
                    pixels[i]
                }
            },
    )
}

/// Ranks and positions invert each other on the blocks of a frame.
proof fn lemma_rank_position(fs: int, s: int, t: (int, int, int, int))
    requires
        fs >= 1,
        s >= 1,
        0 <= t.0 < fs,
        0 <= t.1 < fs,
        0 <= t.2 < s,
        0 <= t.3 < s,
    ensures
        0 <= blit_rank(t, fs, s) < fs * fs * s * s,
        blit_position(blit_rank(t, fs, s), fs, s) == t,
{
    let k = blit_rank(t, fs, s);
    let a = (t.0 * fs + t.1) * s + t.2;
    lemma_div_mod_of(a, s, t.3);
    lemma_div_mod_of(t.0 * fs + t.1, s, t.2);
    lemma_div_mod_of(t.0, fs, t.1);
    assert(0 <= t.0 * fs + t.1 && 0 <= a) by (nonlinear_arith)
        requires 0 <= t.0, 0 <= t.1, fs >= 1, s >= 1, 0 <= t.2, a == (t.0 * fs + t.1) * s + t.2;
    assert(0 <= k);
    vstd::arithmetic::div_mod::lemma_div_denominator(k, s, s);
    vstd::arithmetic::div_mod::lemma_div_denominator(k, s * s, fs);
    assert(s * s * fs == fs * s * s) by (nonlinear_arith);
    assert(t.0 * fs + t.1 < fs * fs) by (nonlinear_arith)
        requires t.0 < fs, t.1 < fs, 0 <= t.1, fs >= 1;
    assert(a < fs * fs * s) by (nonlinear_arith)
        requires a == (t.0 * fs + t.1) * s + t.2, t.0 * fs + t.1 + 1 <= fs * fs, t.2 < s, s >= 1;
    assert(k < fs * fs * s * s) by (nonlinear_arith)
        requires k == a * s + t.3, a + 1 <= fs * fs * s, t.3 < s, s >= 1;
}

proof fn lemma_position_rank(fs: int, s: int, k: int)
    requires
        fs >= 1,
        s >= 1,
        0 <= k < fs * fs * s * s,
    ensures
        ({
            let t = blit_position(k, fs, s);
            &&& 0 <= t.0 < fs
            &&& 0 <= t.1 < fs
            &&& 0 <= t.2 < s
            &&& 0 <= t.3 < s
            &&& blit_rank(t, fs, s) == k
        }),
{
    let t = blit_position(k, fs, s);
    vstd::arithmetic::div_mod::lemma_div_denominator(k, s, s);
    assert(s * s * fs == fs * s * s) by (nonlinear_arith);
    vstd::arithmetic::div_mod::lemma_div_denominator(k, s * s, fs);
    let q1 = k / s;
    let q2 = q1 / s;
    vstd::arithmetic::div_mod::lemma_fundamental_div_mod(k, s);
    vstd::arithmetic::div_mod::lemma_mod_pos_bound(k, s);
    vstd::arithmetic::div_mod::lemma_div_pos_is_pos(k, s);
    vstd::arithmetic::div_mod::lemma_fundamental_div_mod(q1, s);
    vstd::arithmetic::div_mod::lemma_mod_pos_bound(q1, s);
    vstd::arithmetic::div_mod::lemma_div_pos_is_pos(q1, s);
    vstd::arithmetic::div_mod::lemma_fundamental_div_mod(q2, fs);
    vstd::arithmetic::div_mod::lemma_mod_pos_bound(q2, fs);
    vstd::arithmetic::div_mod::lemma_div_pos_is_pos(q2, fs);
    assert(t.0 == q2 / fs && t.1 == q2 % fs && t.2 == q1 % s && t.3 == k % s);
    assert(k == ((t.0 * fs + t.1) * s + t.2) * s + t.3) by (nonlinear_arith)
        requires
            k == s * q1 + k % s,
            q1 == s * q2 + q1 % s,
            q2 == fs * (q2 / fs) + q2 % fs,
            t.0 == q2 / fs, t.1 == q2 % fs, t.2 == q1 % s, t.3 == k % s;
    assert(t.0 < fs) by (nonlinear_arith)
        requires
            k == ((t.0 * fs + t.1) * s + t.2) * s + t.3,
            k < fs * fs * s * s,
            0 <= t.1, 0 <= t.2, 0 <= t.3, fs >= 1, s >= 1;
}

/// One more step of the loop draws one more block pixel.
proof fn lemma_blend_loop_step(
    pixels: Seq<u8>,
    width: int,
    height: int,
    sheet: SheetView,
    frame: u16,
    x: int,
    y: int,
    s: int,
    alpha: u8,
    n: int,
)
    requires
        pixels.len() == width * height * 4,
        width >= 0,
        height >= 0,
        s >= 1,
        sheet.manifest.frame_size >= 1,
        0 <= n < sheet.manifest.frame_size * sheet.manifest.frame_size * s * s,
    ensures
        ({
            let fs = sheet.manifest.frame_size as int;
            let t = blit_position(n, fs, s);
            let src = faded(sheet.frame_pixel_at(frame, t.1, t.0), alpha);
            let cur = blit_first(pixels, width, sheet, frame, x, y, s, alpha, n);
            let next = blit_first(pixels, width, sheet, frame, x, y, s, alpha, n + 1);
            &&& src.a > 0 ==> blend_result(cur, width, height, x + t.1 * s + t.3, y + t.0 * s + t.2, src) == next
            &&& src.a == 0 ==> cur == next
        }),
{
    let fs = sheet.manifest.frame_size as int;
    lemma_position_rank(fs, s, n);
    let t = blit_position(n, fs, s);
    let (sy, sx, oy, ox) = t;
    let src = faded(sheet.frame_pixel_at(frame, sx, sy), alpha);
    let cur = blit_first(pixels, width, sheet, frame, x, y, s, alpha, n);
    let next = blit_first(pixels, width, sheet, frame, x, y, s, alpha, n + 1);
    let dx = x + sx * s + ox;
    let dy = y + sy * s + oy;
    let size = fs * s;
    assert((sx + 1) * s <= size && (sy + 1) * s <= size) by (nonlinear_arith)
        requires sx + 1 <= fs, sy + 1 <= fs, s >= 1, size == fs * s;
    assert((sx + 1) * s == sx * s + s && (sy + 1) * s == sy * s + s) by (nonlinear_arith);
    assert(0 <= sx * s && 0 <= sy * s) by (nonlinear_arith)
        requires sx >= 0, sy >= 0, s >= 1;
    lemma_div_mod_of(sx, s, ox);
    lemma_div_mod_of(sy, s, oy);
    let got = blend_result(cur, width, height, dx, dy, src);
    let inside = 0 <= dx < width && 0 <= dy < height;
    assert forall|i: int| 0 <= i < pixels.len() implies (if src.a > 0 { got[i] } else { cur[i] }) == next[i] by {
        let p = i / 4;
        lemma_pixel_coords(i, width, height);
        let px = p % width;
        let py = p / width;
        let rx = px - x;
        let ry = py - y;
        let in_frame = 0 <= rx < size && 0 <= ry < size;
        if in_frame {
            lemma_split(rx, s, fs);
            lemma_split(ry, s, fs);
            lemma_rank_position(fs, s, (ry / s, rx / s, ry % s, rx % s));
        }
        let here = in_frame && (ry / s, rx / s, ry % s, rx % s) == t;
        if in_frame && blit_rank((ry / s, rx / s, ry % s, rx % s), fs, s) == n {
            assert(here);
        }
        if here {
            assert(px == dx && py == dy);
            assert(inside);
            assert(p == dy * width + dx);
            let base = (dy * width + dx) * 4;
            assert(base <= i < base + 4);
            assert forall|c: int| 0 <= c < 4 implies #[trigger] cur[base + c] == pixels[base + c] by {
                assert((base + c) / 4 == p) by {
                    lemma_div_mod_of(p, 4, c);
                }
            }
            assert(i - base == i % 4);
        } else {
            if src.a > 0 && inside {
                let base = (dy * width + dx) * 4;
                if base <= i < base + 4 {
                    lemma_div_mod_of(dy * width + dx, 4, i - base);
                    assert(p == dy * width + dx);
                    lemma_div_mod_of(dy, width, dx);
                    assert(px == dx && py == dy);
                    assert(false);
                }
            }
        }
    }
    if src.a > 0 {
        assert(got =~= next);
    } else {
        assert(cur =~= next);
    }
}

proof fn lemma_blend_loop_prefix(
    pixels: Seq<u8>,
    width: int,
    height: int,
    sheet: SheetView,
    frame: u16,
    x: int,
    y: int,
    s: int,
    alpha: u8,
    n: nat,
)
    requires
        pixels.len() == width * height * 4,
        width >= 0,
        height >= 0,
        s >= 1,
        sheet.manifest.frame_size >= 1,
        n <= sheet.manifest.frame_size * sheet.manifest.frame_size * s * s,
    ensures
        blend_loop(pixels, width, height, sheet, frame, x, y, s, alpha, n) == blit_first(
            pixels,
            width,
            sheet,
            frame,
            x,
            y,
            s,
            alpha,
            n as int,
        ),
    decreases n,
{
    if n == 0 {
        let b = blit_first(pixels, width, sheet, frame, x, y, s, alpha, 0);
        let fs = sheet.manifest.frame_size as int;
        assert forall|i: int| 0 <= i < pixels.len() implies b[i] == pixels[i] by {
            let p = i / 4;
            lemma_pixel_coords(i, width, height);
            let rx = p % width - x;
            let ry = p / width - y;
            if 0 <= rx < fs * s && 0 <= ry < fs * s {
                lemma_split(rx, s, fs);
                lemma_split(ry, s, fs);
                lemma_rank_position(fs, s, (ry / s, rx / s, ry % s, rx % s));
            }
        }
        assert(b =~= pixels);
    } else {
        lemma_blend_loop_prefix(pixels, width, height, sheet, frame, x, y, s, alpha, (n - 1) as nat);
        lemma_blend_loop_step(pixels, width, height, sheet, frame, x, y, s, alpha, n - 1);
    }
}

/// Drawing a frame is the loop that blends each sprite pixel, when not fully transparent,
/// onto every surface pixel of its `scale` × `scale` block (a scale of 0 counting as 1),
/// sprite row by sprite row, column by column, then block row by block row.
pub proof fn lemma_blit_is_blend_loop(
    pixels: Seq<u8>,
    width: int,
    height: int,
    sheet: SheetView,
    frame: u16,
    x: int,
    y: int,
    scale: u32,
    alpha: u8,
)
    requires
        pixels.len() == width * height * 4,
        width >= 0,
        height >= 0,
    ensures
        ({
            let fs = sheet.manifest.frame_size as int;
            let s = effective_scale(scale);
            blit_result(pixels, width, sheet, frame, x, y, scale, alpha) == blend_loop(
                pixels,
                width,
                height,
                sheet,
                frame,
                x,
                y,
                s,
                alpha,
                (fs * fs * s * s) as nat,
            )
        }),
{
    let fs = sheet.manifest.frame_size as int;
    let s = effective_scale(scale);
    let r = blit_result(pixels, width, sheet, frame, x, y, scale, alpha);
    if fs == 0 {
        assert(fs * fs * s * s == 0);
        assert forall|i: int| 0 <= i < pixels.len() implies r[i] == pixels[i] by {
            assert(fs * s == 0);
        }
        assert(r =~= pixels);
    } else {
        let n = fs * fs * s * s;
        assert(n >= 0) by (nonlinear_arith)
            requires n == fs * fs * s * s, fs >= 1, s >= 1;
        lemma_blend_loop_prefix(pixels, width, height, sheet, frame, x, y, s, alpha, n as nat);
        let b = blit_first(pixels, width, sheet, frame, x, y, s, alpha, n);
        assert forall|i: int| 0 <= i < pixels.len() implies r[i] == b[i] by {
            let p = i / 4;
            lemma_pixel_coords(i, width, height);
            let rx = p % width - x;
            let ry = p / width - y;
            if 0 <= rx < fs * s && 0 <= ry < fs * s {
                lemma_split(rx, s, fs);
                lemma_split(ry, s, fs);
                lemma_rank_position(fs, s, (ry / s, rx / s, ry % s, rx % s));
            }
        }
        assert(r =~= b);
    }
}

/// The sheet with every pixel's opacity scaled by `alpha / 255`.
pub open spec fn faded_sheet(sheet: SheetView, alpha: u8) -> SheetView {
    SheetView { pixels: sheet.pixels.map_values(|p: Rgba| faded(p, alpha)), ..sheet }
}

/// Drawing a frame faded by `alpha` is drawing it at full opacity from a sheet whose
/// pixels were faded by `alpha`; at full `alpha` it is the plain drawing.
pub proof fn lemma_faded_blit_is_blit_of_faded_sheet(
    pixels: Seq<u8>,
    width: int,
    sheet: SheetView,
    frame: u16,
    x: int,
    y: int,
    scale: u32,
    alpha: u8,
)
    requires
        sheet.pixels.len() == sheet.width * sheet.height,
    ensures
        blit_result(pixels, width, sheet, frame, x, y, scale, alpha) == blit_result(
            pixels,
            width,
            faded_sheet(sheet, alpha),
            frame,
            x,
            y,
            scale,
            255,
        ),
        faded_sheet(sheet, 255) == sheet,
{
    let l = blit_result(pixels, width, sheet, frame, x, y, scale, alpha);
    let f = faded_sheet(sheet, alpha);
    let r = blit_result(pixels, width, f, frame, x, y, scale, 255);
    assert forall|px: int, py: int| #[trigger] f.frame_pixel_at(frame, px, py) == faded(sheet.frame_pixel_at(frame, px, py), alpha)
        && faded(f.frame_pixel_at(frame, px, py), 255) == f.frame_pixel_at(frame, px, py) by {
        let q = f.frame_pixel_at(frame, px, py);
        assert(q.a * 255 / 255 == q.a) by (nonlinear_arith);
        let (ax, ay) = (sheet.frame_origin(frame).0 + px, sheet.frame_origin(frame).1 + py);
        if 0 <= ax < sheet.width && 0 <= ay < sheet.height {
            assert(0 <= ay * sheet.width + ax < sheet.width * sheet.height) by (nonlinear_arith)
                requires 0 <= ax < sheet.width, 0 <= ay < sheet.height;
        } else {
            assert(0int * alpha / 255 == 0);
        }
    }
    assert forall|i: int| 0 <= i < pixels.len() implies l[i] == r[i] by {
        let p = i / 4;
        let s = effective_scale(scale);
        let rx = p % width - x;
        let ry = p / width - y;
        assert(f.frame_pixel_at(frame, rx / s, ry / s) == faded(sheet.frame_pixel_at(frame, rx / s, ry / s), alpha));
    }
    assert(l =~= r);
    let g = faded_sheet(sheet, 255);
    assert forall|k: int| 0 <= k < sheet.pixels.len() implies g.pixels[k] == sheet.pixels[k] by {
        let q = sheet.pixels[k];
        assert(q.a * 255 / 255 == q.a) by (nonlinear_arith);
    }
    assert(g.pixels =~= sheet.pixels);
}

} // verus!
