//! HALCYON's colour scheme and colour arithmetic.
//!
//! Colours are 32-bit XRGB words: red in bits 16..24, green in 8..16, blue in
//! 0..8, and the top byte unused.

use vstd::prelude::*;

verus! {

pub type Color = u32;

/// The colour made of the three channels.
pub open spec fn rgb_value(r: int, g: int, b: int) -> int {
    r * 0x10000 + g * 0x100 + b
}

/// Red channel of a colour.
pub open spec fn red_value(c: u32) -> int {
    (c as int / 0x10000) % 0x100
}

/// Green channel of a colour.
pub open spec fn green_value(c: u32) -> int {
    (c as int / 0x100) % 0x100
}

/// Blue channel of a colour.
pub open spec fn blue_value(c: u32) -> int {
    c as int % 0x100
}

/// One channel of `top` laid over `bottom` at `alpha` (0..=255).
pub open spec fn channel_blend(top: int, bottom: int, alpha: int) -> int {
    (top * alpha + bottom * (255 - alpha)) / 255
}

/// What `blend` yields.
pub open spec fn blend_value(bottom: u32, top: u32, alpha: u8) -> int {
    if alpha == 255 {
        top as int
    } else if alpha == 0 {
        bottom as int
    } else {
        rgb_value(
            channel_blend(red_value(top), red_value(bottom), alpha as int),
            channel_blend(green_value(top), green_value(bottom), alpha as int),
            channel_blend(blue_value(top), blue_value(bottom), alpha as int),
        )
    }
}

/// What `scale` yields.
pub open spec fn scale_value(c: u32, factor: u8) -> int {
    rgb_value(
        red_value(c) * factor / 255,
        green_value(c) * factor / 255,
        blue_value(c) * factor / 255,
    )
}

proof fn lemma_pack(r: u8, g: u8, b: u8)
    ensures
        ((r as u32) << 16u32) | ((g as u32) << 8u32) | (b as u32) == rgb_value(r as int, g as int, b as int),
{
    assert(((r as u32) << 16u32) | ((g as u32) << 8u32) | (b as u32) == (r as u32) * 0x10000u32 + (g as u32) * 0x100u32 + (b as u32)) by (bit_vector);
}

proof fn lemma_unpack(c: u32)
    ensures
        ((c >> 16u32) as u8) as int == red_value(c),
        ((c >> 8u32) as u8) as int == green_value(c),
        (c as u8) as int == blue_value(c),
{
    assert(((c >> 16u32) as u8) as u32 == (c / 0x10000u32) % 0x100u32) by (bit_vector);
    assert(((c >> 8u32) as u8) as u32 == (c / 0x100u32) % 0x100u32) by (bit_vector);
    assert((c as u8) as u32 == c % 0x100u32) by (bit_vector);
}

/// Pack three channels into a colour.
pub fn rgb(r: u8, g: u8, b: u8) -> (c: Color)
    ensures
        c == rgb_value(r as int, g as int, b as int),
        red_value(c) == r,
        green_value(c) == g,
        blue_value(c) == b,
{
    proof {
        lemma_pack(r, g, b);
    }
    ((r as u32) << 16u32) | ((g as u32) << 8u32) | (b as u32)
}

/// The red channel.
pub fn red_of(c: Color) -> (r: u8)
    ensures
        r == red_value(c),
{
    proof {
        lemma_unpack(c);
    }
    (c >> 16u32) as u8
}

/// The green channel.
pub fn green_of(c: Color) -> (g: u8)
    ensures
        g == green_value(c),
{
    proof {
        lemma_unpack(c);
    }
    (c >> 8u32) as u8
}

/// The blue channel.
pub fn blue_of(c: Color) -> (b: u8)
    ensures
        b == blue_value(c),
{
    proof {
        lemma_unpack(c);
    }
    c as u8
}

proof fn lemma_channel_blend_bound(top: int, bottom: int, alpha: int)
    requires
        0 <= top < 256,
        0 <= bottom < 256,
        0 <= alpha <= 255,
    ensures
        0 <= channel_blend(top, bottom, alpha) < 256,
{
    assert(0 <= top * alpha <= 255 * alpha) by (nonlinear_arith)
        requires 0 <= top < 256, 0 <= alpha <= 255;
    assert(0 <= bottom * (255 - alpha) <= 255 * (255 - alpha)) by (nonlinear_arith)
        requires 0 <= bottom < 256, 0 <= alpha <= 255;
}

/// Blend `top` over `bottom`. `alpha` is 0..=255.
pub fn blend(bottom: Color, top: Color, alpha: u8) -> (c: Color)
    ensures
        c == blend_value(bottom, top, alpha),
{
    if alpha == 255 {
        return top;
    }
    if alpha == 0 {
        return bottom;
    }
    let a = alpha as u32;
    let inv = 255 - a;
    let tr = red_of(top) as u32;
    let br = red_of(bottom) as u32;
    let tg = green_of(top) as u32;
    let bg = green_of(bottom) as u32;
    let tb = blue_of(top) as u32;
    let bb = blue_of(bottom) as u32;
    proof {
        lemma_channel_blend_bound(tr as int, br as int, a as int);
        lemma_channel_blend_bound(tg as int, bg as int, a as int);
        lemma_channel_blend_bound(tb as int, bb as int, a as int);
        assert(tr * a <= 255 * 255) by (nonlinear_arith) requires tr < 256, a <= 255;
        assert(br * inv <= 255 * 255) by (nonlinear_arith) requires br < 256, inv <= 255;
        assert(tg * a <= 255 * 255) by (nonlinear_arith) requires tg < 256, a <= 255;
        assert(bg * inv <= 255 * 255) by (nonlinear_arith) requires bg < 256, inv <= 255;
        assert(tb * a <= 255 * 255) by (nonlinear_arith) requires tb < 256, a <= 255;
        assert(bb * inv <= 255 * 255) by (nonlinear_arith) requires bb < 256, inv <= 255;
    }
    let r = (tr * a + br * inv) / 255;
    let g = (tg * a + bg * inv) / 255;
    let b = (tb * a + bb * inv) / 255;
    rgb(r as u8, g as u8, b as u8)
}

/// Scale a colour's brightness. `factor` is 0..=255 where 255 is unchanged.
pub fn scale(color: Color, factor: u8) -> (c: Color)
    ensures
        c == scale_value(color, factor),
{
    let f = factor as u32;
    let r = red_of(color) as u32;
    let g = green_of(color) as u32;
    let b = blue_of(color) as u32;
    proof {
        assert(r * f <= 255 * 255) by (nonlinear_arith) requires r < 256, f <= 255;
        assert(g * f <= 255 * 255) by (nonlinear_arith) requires g < 256, f <= 255;
        assert(b * f <= 255 * 255) by (nonlinear_arith) requires b < 256, f <= 255;
        assert((r * f) / 255 <= 255) by (nonlinear_arith) requires r < 256, f <= 255;
        assert((g * f) / 255 <= 255) by (nonlinear_arith) requires g < 256, f <= 255;
        assert((b * f) / 255 <= 255) by (nonlinear_arith) requires b < 256, f <= 255;
    }
    rgb(((r * f) / 255) as u8, ((g * f) / 255) as u8, ((b * f) / 255) as u8)
}

/// Linear interpolation between two colours, `t` in 0..=255.
pub fn mix(a: Color, b: Color, t: u8) -> (c: Color)
    ensures
        c == blend_value(a, b, t),
{
    blend(a, b, t)
}

/// Blending at full opacity yields the top colour; at zero, the bottom one.
pub proof fn law_blend_extremes(bottom: u32, top: u32)
    ensures
        blend_value(bottom, top, 255) == top,
        blend_value(bottom, top, 0) == bottom,
{
}

/// Scaling by 255 leaves a colour's three channels as they were.
pub proof fn law_scale_full(c: u32)
    ensures
        scale_value(c, 255) == rgb_value(red_value(c), green_value(c), blue_value(c)),
{
    assert(red_value(c) * 255 / 255 == red_value(c));
    assert(green_value(c) * 255 / 255 == green_value(c));
    assert(blue_value(c) * 255 / 255 == blue_value(c));
}

pub const VOID: Color = 0x0003_050A;
pub const DESKTOP_TOP: Color = 0x000A_1022;
pub const DESKTOP_BOTTOM: Color = 0x0004_060F;
pub const PANEL: Color = 0x000D_1220;
pub const PANEL_RAISED: Color = 0x0016_1D31;
pub const PANEL_SUNKEN: Color = 0x0007_0A14;
pub const BORDER: Color = 0x002A_3350;
pub const BORDER_BRIGHT: Color = 0x0044_537E;
pub const AMBER: Color = 0x00FF_B024;
pub const AMBER_DIM: Color = 0x008A_5E10;
pub const AMBER_GLOW: Color = 0x004A_3008;
pub const CYAN: Color = 0x003D_E0D0;
pub const CYAN_DIM: Color = 0x001C_726C;
pub const TEXT: Color = 0x00C8_D4E8;
pub const TEXT_BRIGHT: Color = 0x00EC_F3FF;
pub const TEXT_DIM: Color = 0x006D_7C99;
pub const TEXT_FAINT: Color = 0x003E_4960;
pub const OK: Color = 0x005C_DE8A;
pub const WARN: Color = 0x00FF_C54D;
pub const ERROR: Color = 0x00FF_5C6A;
pub const VIOLET: Color = 0x00B1_8CFF;
pub const BLACK: Color = 0x0000_0000;
pub const WHITE: Color = 0x00FF_FFFF;

} // verus!
