//! Text rendering over a surface.
//!
//! The font is an 8x16 bitmap table of 256 glyphs: ASCII plus a few drawing
//! characters in the control range. Each glyph is sixteen scanlines of one
//! byte, most significant bit leftmost.

use vstd::prelude::*;

verus! {

use crate::gfx::draw::{Rect, Surface, at, in_i32, PixelOp};
use crate::gfx::palette::Color;

pub const GLYPH_WIDTH: usize = 8;
pub const GLYPH_HEIGHT: usize = 16;

/// Glyph codes of the drawing characters in the control range.
pub const LOGO: u8 = 0x01;
pub const CHIP: u8 = 0x02;
pub const DITHER: u8 = 0x03;
pub const BLOCK: u8 = 0x04;
pub const HALF_BLOCK: u8 = 0x05;
pub const BULLET: u8 = 0x06;
pub const ARROW_RIGHT: u8 = 0x07;
pub const ARROW_LEFT: u8 = 0x08;
pub const ARROW_UP: u8 = 0x0E;
pub const ARROW_DOWN: u8 = 0x0F;

#[derive(Clone, Copy, Debug, PartialEq, Eq, Structural)]
pub enum Weight {
    Regular,
    /// Synthesised by smearing each scanline one pixel to the right, which is
    /// how bitmap terminals have always faked bold.
    Bold,
}

/// A bitmap font: 256 glyphs of 16 scanline bytes, glyph after glyph.
pub struct Font {
    pub rows: Vec<u8>,
}

impl Font {
    pub open spec fn wf(&self) -> bool {
        self.rows@.len() == 256 * 16
    }
}

/// Scanline `row` of glyph `code` at `weight`.
pub open spec fn scanline_spec(rows: Seq<u8>, code: u8, row: int, weight: Weight) -> u8 {
    let bits = rows[code * 16 + row];
    match weight {
        Weight::Regular => bits,
        Weight::Bold => bits | (bits >> 1u8),
    }
}

pub fn scanline(font: &Font, code: u8, row: usize, weight: Weight) -> (r: u8)
    requires
        font.wf(),
        row < GLYPH_HEIGHT,
    ensures
        r == scanline_spec(font.rows@, code, row as int, weight),
{
    let bits = font.rows[code as usize * 16 + row];
    match weight {
        Weight::Regular => bits,
        Weight::Bold => bits | (bits >> 1),
    }
}

/// Width in pixels of `text` at the given scale.
pub fn text_width(text: &str, scale: usize) -> (r: usize)
    requires
        text@.len() * 8 <= usize::MAX,
        text@.len() * 8 * scale <= usize::MAX,
    ensures
        r == text@.len() * 8 * scale,
{
    let n = text.unicode_len();
    n * GLYPH_WIDTH * scale
}

/// The font slot for `ch`: typographic characters fold onto their ASCII
/// look-alikes, arrows and blocks onto the drawing glyphs, other Latin-1
/// characters onto themselves, and anything else onto the visible
/// missing-glyph box 0x7F.
pub open spec fn code_spec(ch: char) -> u8 {
    let v = ch as u32;
    if v == 0x2014 || v == 0x2013 || v == 0x2212 { 0x2D }
    else if v == 0x2018 || v == 0x2019 { 0x27 }
    else if v == 0x201C || v == 0x201D { 0x22 }
    else if v == 0x2026 { 0x2E }
    else if v == 0x00A0 { 0x20 }
    else if v == 0x2022 { BULLET }
    else if v == 0x2192 { ARROW_RIGHT }
    else if v == 0x2190 { ARROW_LEFT }
    else if v == 0x2191 { ARROW_UP }
    else if v == 0x2193 { ARROW_DOWN }
    else if v == 0x2588 { BLOCK }
    else if v == 0x2592 { HALF_BLOCK }
    else if v < 256 { v as u8 }
    else { 0x7F }
}

pub fn code_of(ch: char) -> (r: u8)
    ensures
        r == code_spec(ch),
{
    let v = ch as u32;
    if v == 0x2014 || v == 0x2013 || v == 0x2212 { 0x2D }
    else if v == 0x2018 || v == 0x2019 { 0x27 }
    else if v == 0x201C || v == 0x201D { 0x22 }
    else if v == 0x2026 { 0x2E }
    else if v == 0x00A0 { 0x20 }
    else if v == 0x2022 { BULLET }
    else if v == 0x2192 { ARROW_RIGHT }
    else if v == 0x2190 { ARROW_LEFT }
    else if v == 0x2191 { ARROW_UP }
    else if v == 0x2193 { ARROW_DOWN }
    else if v == 0x2588 { BLOCK }
    else if v == 0x2592 { HALF_BLOCK }
    else if v < 256 { v as u8 }
    else { 0x7F }
}

/// Cell `k` (row `k / 8`, column `k % 8`) of a glyph drawn at (x, y).
pub open spec fn cell(x: int, y: int, scale: int, k: int) -> Rect {
    Rect { x: (x + (k % 8) * scale) as i32, y: (y + (k / 8) * scale) as i32, w: scale as i32, h: scale as i32 }
}

/// Cell `k` of glyph `code` is inked.
pub open spec fn lit(rows: Seq<u8>, code: u8, weight: Weight, k: int) -> bool {
    scanline_spec(rows, code, k / 8, weight) & (0x80u8 >> ((k % 8) as u8)) != 0
}

/// Some inked cell among the first `limit` covers (px, py).
pub open spec fn glyph_covers(rows: Seq<u8>, code: u8, weight: Weight, x: int, y: int, scale: int, limit: int, px: int, py: int) -> bool {
    exists|k: int| 0 <= k < limit && #[trigger] lit(rows, code, weight, k) && cell(x, y, scale, k).contains_spec(px, py)
}

/// Coordinates at which a glyph can be drawn against `clip` with no
/// arithmetic leaving the `i32` range.
pub open spec fn glyph_fits(clip: Rect, x: int, y: int, scale: int) -> bool {
    &&& in_i32(x) && in_i32(y)
    &&& in_i32(16 * scale)
    &&& x + 8 * scale <= i32::MAX
    &&& y + 16 * scale <= i32::MAX
    &&& x >= i32::MIN + clip.x
    &&& y >= i32::MIN + clip.y
}

/// `new` is `old` with `color` on every pixel of the clip that the glyph
/// covers.
pub open spec fn glyph_drawn(new: Seq<u32>, old: Seq<u32>, w: int, h: int, clip: Rect, rows: Seq<u8>, code: u8, weight: Weight, x: int, y: int, scale: int, color: u32) -> bool {
    &&& new.len() == old.len()
    &&& forall|px: int, py: int| 0 <= px < w && 0 <= py < h ==> #[trigger] at(new, w, px, py) ==
        if clip.contains_spec(px, py) && scale >= 1 && glyph_covers(rows, code, weight, x, y, scale, 128, px, py) {
            color
        } else {
            at(old, w, px, py)
        }
}

proof fn lemma_cell_ok(clip: Rect, x: int, y: int, scale: int, k: int, w: int, h: int)
    requires
        glyph_fits(clip, x, y, scale),
        scale >= 1,
        0 <= k < 128,
        clip.inside(w, h),
        w <= i32::MAX,
        h <= i32::MAX,
    ensures
        cell(x, y, scale, k).intersect_ok(clip),
        in_i32(x + (k % 8) * scale),
        in_i32(y + (k / 8) * scale),
        in_i32((k % 8) * scale),
        in_i32((k / 8) * scale),
{
    assert(0 <= k % 8 < 8);
    assert(0 <= k / 8 < 16);
    assert((k % 8) * scale <= 7 * scale) by (nonlinear_arith)
        requires 0 <= k % 8 < 8, scale >= 1;
    assert((k / 8) * scale <= 15 * scale) by (nonlinear_arith)
        requires 0 <= k / 8 < 16, scale >= 1;
    assert((k % 8) * scale >= 0) by (nonlinear_arith)
        requires 0 <= k % 8, scale >= 1;
    assert((k / 8) * scale >= 0) by (nonlinear_arith)
        requires 0 <= k / 8, scale >= 1;
}

impl Surface {
    /// Draw glyph `code` with its top-left corner at (x, y), each font
    /// pixel a `scale` x `scale` square.
    pub fn glyph(&mut self, font: &Font, code: u8, x: i32, y: i32, color: Color, weight: Weight, scale: i32)
        requires
            old(self).wf(),
            font.wf(),
            glyph_fits(old(self).clip, x as int, y as int, scale as int),
        ensures
            final(self).wf(),
            final(self).width == old(self).width,
            final(self).height == old(self).height,
            final(self).clip == old(self).clip,
            glyph_drawn(final(self).pixels@, old(self).pixels@, old(self).width as int, old(self).height as int, old(self).clip,
                font.rows@, code, weight, x as int, y as int, scale as int, color),
    {
        let ghost w = self.width as int;
        let ghost h = self.height as int;
        let ghost old_px = self.pixels@;
        let ghost rows = font.rows@;
        if scale < 1 {
            return;
        }
        let mut k: usize = 0;
        while k < 128
            invariant
                self.wf(),
                font.wf(),
                rows == font.rows@,
                w == self.width,
                h == self.height,
                self.clip == old(self).clip,
                old_px.len() == self.pixels@.len(),
                glyph_fits(self.clip, x as int, y as int, scale as int),
                scale >= 1,
                k <= 128,
                forall|px: int, py: int| 0 <= px < w && 0 <= py < h ==> #[trigger] at(self.pixels@, w, px, py) ==
                    if self.clip.contains_spec(px, py) && glyph_covers(rows, code, weight, x as int, y as int, scale as int, k as int, px, py) {
                        color
                    } else {
                        at(old_px, w, px, py)
                    },
            decreases 128 - k,
        {
            let row = k / 8;
            let column = k % 8;
            let bits = scanline(font, code, row, weight);
            let ghost before = self.pixels@;
            proof {
                lemma_cell_ok(self.clip, x as int, y as int, scale as int, k as int, w, h);
                self.lemma_wf();
            }
            let inked = bits & (0x80u8 >> (column as u8)) != 0;
            if inked {
                let px = x + column as i32 * scale;
                let py = y + row as i32 * scale;
                if scale == 1 {
                    self.pixel(px, py, color);
                } else {
                    self.fill_rect(Rect::new(px, py, scale, scale), color);
                }
            }
            proof {
                assert(lit(rows, code, weight, k as int) == inked);
                let c = cell(x as int, y as int, scale as int, k as int);
                assert forall|px: int, py: int| 0 <= px < w && 0 <= py < h implies #[trigger] at(self.pixels@, w, px, py) ==
                    if self.clip.contains_spec(px, py) && glyph_covers(rows, code, weight, x as int, y as int, scale as int, k as int + 1, px, py) {
                        color
                    } else {
                        at(old_px, w, px, py)
                    } by {
                    assert(at(before, w, px, py) == at(before, w, px, py));
                    if glyph_covers(rows, code, weight, x as int, y as int, scale as int, k as int + 1, px, py) {
                        let j = choose|j: int| 0 <= j < k + 1 && #[trigger] lit(rows, code, weight, j)
                            && cell(x as int, y as int, scale as int, j).contains_spec(px, py);
                        if j < k {
                            assert(glyph_covers(rows, code, weight, x as int, y as int, scale as int, k as int, px, py));
                        }
                    } else {
                        assert(!(inked && c.contains_spec(px, py)));
                        if glyph_covers(rows, code, weight, x as int, y as int, scale as int, k as int, px, py) {
                            let j = choose|j: int| 0 <= j < k && #[trigger] lit(rows, code, weight, j)
                                && cell(x as int, y as int, scale as int, j).contains_spec(px, py);
                            assert(glyph_covers(rows, code, weight, x as int, y as int, scale as int, k as int + 1, px, py));
                        }
                    }
                    if inked && c.contains_spec(px, py) && self.clip.contains_spec(px, py) {
                        assert(glyph_covers(rows, code, weight, x as int, y as int, scale as int, k as int + 1, px, py));
                    }
                }
            }
            k += 1;
        }
    }
}

/// Some glyph of `chars`, laid out from x with an advance of 8 * scale,
/// covers (px, py).
pub open spec fn text_covers(rows: Seq<u8>, chars: Seq<char>, weight: Weight, x: int, y: int, scale: int, limit: int, px: int, py: int) -> bool {
    exists|i: int| 0 <= i < limit && #[trigger] glyph_covers(rows, code_spec(chars[i]), weight, x + i * 8 * scale, y, scale, 128, px, py)
}

/// Coordinates at which `n` characters can be drawn against `clip` with no
/// arithmetic leaving the `i32` range.
pub open spec fn text_fits(clip: Rect, n: int, x: int, y: int, scale: int) -> bool {
    &&& in_i32(x) && in_i32(y)
    &&& in_i32(16 * scale)
    &&& in_i32(8 * scale)
    &&& in_i32(x + n * 8 * scale)
    &&& scale >= 1 ==> x >= i32::MIN + clip.x && y >= i32::MIN + clip.y && y + 16 * scale <= i32::MAX
}

/// `new` is `old` with `color` on every pixel of the clip that the text covers.
pub open spec fn text_drawn(new: Seq<u32>, old: Seq<u32>, w: int, h: int, clip: Rect, rows: Seq<u8>, chars: Seq<char>, weight: Weight, x: int, y: int, scale: int, color: u32) -> bool {
    &&& new.len() == old.len()
    &&& forall|px: int, py: int| 0 <= px < w && 0 <= py < h ==> #[trigger] at(new, w, px, py) ==
        if clip.contains_spec(px, py) && scale >= 1 && text_covers(rows, chars, weight, x, y, scale, chars.len() as int, px, py) {
            color
        } else {
            at(old, w, px, py)
        }
}

proof fn lemma_cell_span(x: int, y: int, scale: int, k: int, px: int, py: int)
    requires
        scale >= 1,
        0 <= k < 128,
        cell(x, y, scale, k).contains_spec(px, py),
        in_i32(x + (k % 8) * scale),
        in_i32(y + (k / 8) * scale),
    ensures
        x <= px < x + 8 * scale,
{
    assert(0 <= k % 8 < 8);
    assert((k % 8) * scale + scale <= 8 * scale) by (nonlinear_arith)
        requires 0 <= k % 8 < 8, scale >= 1;
    assert((k % 8) * scale >= 0) by (nonlinear_arith)
        requires 0 <= k % 8, scale >= 1;
}

proof fn lemma_step_bounds(x: int, i: int, n: int, scale: int)
    requires
        0 <= i < n,
        scale >= 1,
    ensures
        x <= x + i * 8 * scale,
        x + (i + 1) * 8 * scale <= x + n * 8 * scale,
        x + i * 8 * scale + 8 * scale == x + (i + 1) * 8 * scale,
{
    assert(i * 8 * scale >= 0) by (nonlinear_arith)
        requires i >= 0, scale >= 1;
    assert((i + 1) * 8 * scale <= n * 8 * scale) by (nonlinear_arith)
        requires i + 1 <= n, scale >= 1;
    assert(i * 8 * scale + 8 * scale == (i + 1) * 8 * scale) by (nonlinear_arith);
}

proof fn lemma_step_bounds_any(x: int, i: int, n: int, scale: int)
    requires
        0 <= i < n,
    ensures
        x + i * 8 * scale + 8 * scale == x + (i + 1) * 8 * scale,
        scale < 1 ==> x + n * 8 * scale <= x + (i + 1) * 8 * scale <= x,
{
    assert(i * 8 * scale + 8 * scale == (i + 1) * 8 * scale) by (nonlinear_arith);
    if scale < 1 {
        assert((i + 1) * 8 * scale <= 0) by (nonlinear_arith)
            requires i + 1 >= 0, scale < 1;
        assert(n * 8 * scale <= (i + 1) * 8 * scale) by (nonlinear_arith)
            requires i + 1 <= n, scale < 1;
    }
}

impl Surface {
    /// Draw `text` left to right from (x, y). Returns the x coordinate just
    /// past the last glyph.
    pub fn text_ex(&mut self, font: &Font, text: &str, x: i32, y: i32, color: Color, weight: Weight, scale: i32) -> (end: i32)
        requires
            old(self).wf(),
            font.wf(),
            text_fits(old(self).clip, text@.len() as int, x as int, y as int, scale as int),
        ensures
            final(self).wf(),
            final(self).width == old(self).width,
            final(self).height == old(self).height,
            final(self).clip == old(self).clip,
            end == x + text@.len() * 8 * scale,
            text_drawn(final(self).pixels@, old(self).pixels@, old(self).width as int, old(self).height as int, old(self).clip,
                font.rows@, text@, weight, x as int, y as int, scale as int, color),
    {
        let chars = crate::text::chars_of(text);
        let n = chars.len();
        let ghost w = self.width as int;
        let ghost h = self.height as int;
        let ghost old_px = self.pixels@;
        let ghost rows = font.rows@;
        let advance = 8 * scale;
        let mut cursor = x;
        let mut i: usize = 0;
        proof {
            assert(0 * 8 * (scale as int) == 0) by (nonlinear_arith);
        }
        while i < n
            invariant
                self.wf(),
                font.wf(),
                rows == font.rows@,
                chars@ == text@,
                n == chars@.len(),
                w == self.width,
                h == self.height,
                self.clip == old(self).clip,
                old_px.len() == self.pixels@.len(),
                text_fits(self.clip, n as int, x as int, y as int, scale as int),
                advance == 8 * scale,
                i <= n,
                cursor == x + i * 8 * scale,
                forall|px: int, py: int| 0 <= px < w && 0 <= py < h ==> #[trigger] at(self.pixels@, w, px, py) ==
                    if self.clip.contains_spec(px, py) && scale >= 1 && text_covers(rows, chars@, weight, x as int, y as int, scale as int, i as int, px, py) {
                        color
                    } else {
                        at(old_px, w, px, py)
                    },
            decreases n - i,
        {
            proof {
                lemma_step_bounds_any(x as int, i as int, n as int, scale as int);
                if scale >= 1 {
                    lemma_step_bounds(x as int, i as int, n as int, scale as int);
                }
            }
            let code = code_of(chars[i]);
            let ghost before = self.pixels@;
            let clip_x = self.clip.x;
            let clip_right = self.clip.right();
            let visible = scale >= 1 && cursor + advance > clip_x && cursor < clip_right;
            if visible {
                self.glyph(font, code, cursor, y, color, weight, scale);
            }
            proof {
                let gx = x + i * 8 * scale;
                assert forall|px: int, py: int| 0 <= px < w && 0 <= py < h implies #[trigger] at(self.pixels@, w, px, py) ==
                    if self.clip.contains_spec(px, py) && scale >= 1 && text_covers(rows, chars@, weight, x as int, y as int, scale as int, i as int + 1, px, py) {
                        color
                    } else {
                        at(old_px, w, px, py)
                    } by {
                    let here = glyph_covers(rows, code, weight, gx, y as int, scale as int, 128, px, py);
                    if here && scale >= 1 && self.clip.contains_spec(px, py) && !visible {
                        let k = choose|k: int| 0 <= k < 128 && #[trigger] lit(rows, code, weight, k) && cell(gx, y as int, scale as int, k).contains_spec(px, py);
                        lemma_cell_ok(self.clip, gx, y as int, scale as int, k, w, h);
                        lemma_cell_span(gx, y as int, scale as int, k, px, py);
                    }
                    if text_covers(rows, chars@, weight, x as int, y as int, scale as int, i as int + 1, px, py) {
                        let j = choose|j: int| 0 <= j < i + 1 && #[trigger] glyph_covers(rows, code_spec(chars@[j]), weight, x + j * 8 * scale, y as int, scale as int, 128, px, py);
                        if j < i {
                            assert(text_covers(rows, chars@, weight, x as int, y as int, scale as int, i as int, px, py));
                        }
                    } else {
                        if text_covers(rows, chars@, weight, x as int, y as int, scale as int, i as int, px, py) {
                            let j = choose|j: int| 0 <= j < i && #[trigger] glyph_covers(rows, code_spec(chars@[j]), weight, x + j * 8 * scale, y as int, scale as int, 128, px, py);
                            assert(text_covers(rows, chars@, weight, x as int, y as int, scale as int, i as int + 1, px, py));
                        }
                        assert(!here);
                    }
                    if here {
                        assert(text_covers(rows, chars@, weight, x as int, y as int, scale as int, i as int + 1, px, py));
                    }
                }
            }
            cursor = cursor + advance;
            i += 1;
        }
        cursor
    }

    pub fn text(&mut self, font: &Font, text: &str, x: i32, y: i32, color: Color) -> (end: i32)
        requires
            old(self).wf(),
            font.wf(),
            text_fits(old(self).clip, text@.len() as int, x as int, y as int, 1),
        ensures
            final(self).wf(),
            final(self).width == old(self).width,
            final(self).height == old(self).height,
            final(self).clip == old(self).clip,
            end == x + text@.len() * 8,
            text_drawn(final(self).pixels@, old(self).pixels@, old(self).width as int, old(self).height as int, old(self).clip,
                font.rows@, text@, Weight::Regular, x as int, y as int, 1, color),
    {
        self.text_ex(font, text, x, y, color, Weight::Regular, 1)
    }

    pub fn text_bold(&mut self, font: &Font, text: &str, x: i32, y: i32, color: Color) -> (end: i32)
        requires
            old(self).wf(),
            font.wf(),
            text_fits(old(self).clip, text@.len() as int, x as int, y as int, 1),
        ensures
            final(self).wf(),
            final(self).width == old(self).width,
            final(self).height == old(self).height,
            final(self).clip == old(self).clip,
            end == x + text@.len() * 8,
            text_drawn(final(self).pixels@, old(self).pixels@, old(self).width as int, old(self).height as int, old(self).clip,
                font.rows@, text@, Weight::Bold, x as int, y as int, 1, color),
    {
        self.text_ex(font, text, x, y, color, Weight::Bold, 1)
    }

    /// Draw `text` centred on `cx`.
    pub fn text_centered(&mut self, font: &Font, text: &str, cx: i32, y: i32, color: Color, weight: Weight)
        requires
            old(self).wf(),
            font.wf(),
            text@.len() * 8 <= i32::MAX,
            text_fits(old(self).clip, text@.len() as int, cx - (text@.len() * 8) / 2, y as int, 1),
        ensures
            final(self).wf(),
            final(self).width == old(self).width,
            final(self).height == old(self).height,
            final(self).clip == old(self).clip,
            text_drawn(final(self).pixels@, old(self).pixels@, old(self).width as int, old(self).height as int, old(self).clip,
                font.rows@, text@, weight, cx - (text@.len() * 8) / 2, y as int, 1, color),
    {
        let width = text_width(text, 1) as i32;
        self.text_ex(font, text, cx - width / 2, y, color, weight, 1);
    }
}

} // verus!
