//! RGBA colours: hex-string parsing, linear interpolation and the standard
//! "over" alpha-compositing operator, all in integer arithmetic.

use vstd::prelude::*;

verus! {

/// One RGBA pixel with eight bits per channel.
#[derive(Debug, Clone, Copy, PartialEq, Eq, Structural)]
pub struct Color {
    pub r: u8,
    pub g: u8,
    pub b: u8,
    pub a: u8,
}

/// Whether `c` is an ASCII hexadecimal digit.
pub open spec fn is_hex_digit(c: char) -> bool {
    ('0' <= c && c <= '9') || ('a' <= c && c <= 'f') || ('A' <= c && c <= 'F')
}

/// The value of the hexadecimal digit `c`; meaningful only when
/// `is_hex_digit(c)` holds.
pub open spec fn hex_digit_value(c: char) -> int {
    if '0' <= c && c <= '9' {
        c as int - '0' as int
    } else if 'a' <= c && c <= 'f' {
        c as int - 'a' as int + 10
    } else {
        c as int - 'A' as int + 10
    }
}

/// The byte written as the two hexadecimal digits `h` `l`, or `default`
/// when the pair is not two hexadecimal digits.
pub open spec fn hex_pair_or(h: char, l: char, default: u8) -> u8 {
    if is_hex_digit(h) && is_hex_digit(l) {
        (16 * hex_digit_value(h) + hex_digit_value(l)) as u8
    } else {
        default
    }
}

/// `s` with every leading `#` removed.
pub open spec fn drop_leading_hashes(s: Seq<char>) -> Seq<char>
    decreases s.len(),
{
    if s.len() > 0 && s[0] == '#' {
        drop_leading_hashes(s.drop_first())
    } else {
        s
    }
}

/// The colour denoted by `s`: after leading `#`s are removed, six digits
/// give an opaque RGB colour, eight give RGBA, and anything else gives
/// opaque black. A channel whose two characters are not hexadecimal
/// digits falls back to 0, except the alpha channel, which falls back to
/// fully opaque.
pub open spec fn spec_parse_hex_color(s: Seq<char>) -> Color {
    let t = drop_leading_hashes(s);
    if t.len() == 6 {
        Color {
            r: hex_pair_or(t[0], t[1], 0),
            g: hex_pair_or(t[2], t[3], 0),
            b: hex_pair_or(t[4], t[5], 0),
            a: 255,
        }
    } else if t.len() == 8 {
        Color {
            r: hex_pair_or(t[0], t[1], 0),
            g: hex_pair_or(t[2], t[3], 0),
            b: hex_pair_or(t[4], t[5], 0),
            a: hex_pair_or(t[6], t[7], 255),
        }
    } else {
        Color { r: 0, g: 0, b: 0, a: 255 }
    }
}

/// The value of `c` as a hexadecimal digit, or 255 when `c` is none.
fn hex_digit(c: char) -> (r: u8)
    ensures
        is_hex_digit(c) <==> r != 255,
        is_hex_digit(c) ==> r == hex_digit_value(c),
{
    let n = c as u32;
    if n >= 48 && n <= 57 {
        (n - 48) as u8
    } else if n >= 97 && n <= 102 {
        (n - 97 + 10) as u8
    } else if n >= 65 && n <= 70 {
        (n - 65 + 10) as u8
    } else {
        255
    }
}

/// The byte written as the digits `h` `l`, or `default` when the pair is
/// not two hexadecimal digits.
fn hex_pair(h: char, l: char, default: u8) -> (r: u8)
    ensures
        r == hex_pair_or(h, l, default),
{
    let hv = hex_digit(h);
    let lv = hex_digit(l);
    if hv != 255 && lv != 255 {
        16 * hv + lv
    } else {
        default
    }
}

/// Parse a hex colour string, with or without leading `#`: six digits
/// give RGB with full alpha, eight give RGBA, and malformed input gives
/// opaque black rather than an error.
pub fn parse_hex_color(hex: &str) -> (c: Color)
    ensures
        c == spec_parse_hex_color(hex@),
{
    let len = hex.unicode_len();
    let mut start: usize = 0;
    proof {
        assert(hex@.skip(0) =~= hex@);
    }
    loop
        invariant
            start <= len,
            len == hex@.len(),
            drop_leading_hashes(hex@) == drop_leading_hashes(hex@.skip(start as int)),
        ensures
            start <= len,
            len == hex@.len(),
            drop_leading_hashes(hex@) == hex@.skip(start as int),
        decreases len - start,
    {
        if start == len {
            proof {
                assert(hex@.skip(start as int) =~= Seq::<char>::empty());
            }
            break;
        }
        let ch = hex.get_char(start);
        if ch != '#' {
            proof {
                assert(hex@.skip(start as int)[0] == hex@[start as int]);
            }
            break;
        }
        proof {
            assert(hex@.skip(start as int).drop_first() =~= hex@.skip(start as int + 1));
        }
        start = start + 1;
    }
    let n = len - start;
    if n == 6 {
        Color {
            r: hex_pair(hex.get_char(start), hex.get_char(start + 1), 0),
            g: hex_pair(hex.get_char(start + 2), hex.get_char(start + 3), 0),
            b: hex_pair(hex.get_char(start + 4), hex.get_char(start + 5), 0),
            a: 255,
        }
    } else if n == 8 {
        Color {
            r: hex_pair(hex.get_char(start), hex.get_char(start + 1), 0),
            g: hex_pair(hex.get_char(start + 2), hex.get_char(start + 3), 0),
            b: hex_pair(hex.get_char(start + 4), hex.get_char(start + 5), 0),
            a: hex_pair(hex.get_char(start + 6), hex.get_char(start + 7), 255),
        }
    } else {
        Color { r: 0, g: 0, b: 0, a: 255 }
    }
}

/// Linear interpolation from `a` to `b` at position `t` thousandths,
/// rounded towards `a`'s side of the exact value.
pub open spec fn spec_lerp_u8(a: u8, b: u8, t: u64) -> u8 {
    ((1000 * a + (b - a) * t) / 1000) as u8
}

/// Linear interpolation between two channel values; `t` is in thousandths
/// of the unit interval.
pub fn lerp_u8(a: u8, b: u8, t: u64) -> (r: u8)
    requires
        t <= 1000,
    ensures
        r == spec_lerp_u8(a, b, t),
{
    proof {
        lemma_lerp_bounds(a as int, b as int, t as int);
    }
    let num: i64 = 1000 * (a as i64) + ((b as i64) - (a as i64)) * (t as i64);
    (num / 1000) as u8
}

proof fn lemma_lerp_bounds(a: int, b: int, t: int)
    requires
        0 <= a <= 255,
        0 <= b <= 255,
        0 <= t <= 1000,
    ensures
        -255000 <= (b - a) * t <= 255000,
        0 <= 1000 * a + (b - a) * t <= 255000,
        0 <= (1000 * a + (b - a) * t) / 1000 <= 255,
{
    assert(-255000 <= (b - a) * t <= 255000) by (nonlinear_arith)
        requires
            0 <= a <= 255,
            0 <= b <= 255,
            0 <= t <= 1000,
    ;
    assert(0 <= 1000 * a + (b - a) * t <= 255000) by (nonlinear_arith)
        requires
            0 <= a <= 255,
            0 <= b <= 255,
            0 <= t <= 1000,
    ;
}

/// The denominator of the "over" operator, scaled by 255 squared: it is
/// zero exactly when the composite is fully transparent.
pub open spec fn blend_denom(bg: Color, fg: Color) -> int {
    255 * fg.a + bg.a * (255 - fg.a)
}

/// One colour channel of the "over" composite.
pub open spec fn blend_channel(bgc: u8, bga: u8, fgc: u8, fga: u8) -> u8 {
    ((255 * fgc * fga + bgc * bga * (255 - fga)) / (255 * fga + bga * (255 - fga))) as u8
}

/// The standard "over" alpha composite of `fg` onto `bg`; fully
/// transparent output collapses to all-zero.
pub open spec fn spec_alpha_blend(bg: Color, fg: Color) -> Color {
    if blend_denom(bg, fg) == 0 {
        Color { r: 0, g: 0, b: 0, a: 0 }
    } else {
        Color {
            r: blend_channel(bg.r, bg.a, fg.r, fg.a),
            g: blend_channel(bg.g, bg.a, fg.g, fg.a),
            b: blend_channel(bg.b, bg.a, fg.b, fg.a),
            a: (blend_denom(bg, fg) / 255) as u8,
        }
    }
}

proof fn lemma_blend_bounds(bgc: int, bga: int, fgc: int, fga: int)
    requires
        0 <= bgc <= 255,
        0 <= bga <= 255,
        0 <= fgc <= 255,
        0 <= fga <= 255,
    ensures
        255 * fgc * fga + bgc * bga * (255 - fga) <= 255 * (255 * fga + bga * (255 - fga)),
        255 * fga + bga * (255 - fga) <= 255 * 255,
        bga * (255 - fga) <= 65025,
        255 * fgc * fga <= 16581375,
        bgc * bga <= 65025,
        bgc * bga * (255 - fga) <= 16581375,
{
    assert(255 * fgc * fga + bgc * bga * (255 - fga) <= 255 * (255 * fga + bga * (255 - fga))
        && 255 * fga + bga * (255 - fga) <= 255 * 255 && bga * (255 - fga) <= 65025 && 255 * fgc
        * fga <= 16581375 && bgc * bga <= 65025 && bgc * bga * (255 - fga) <= 16581375)
        by (nonlinear_arith)
        requires
            0 <= bgc <= 255,
            0 <= bga <= 255,
            0 <= fgc <= 255,
            0 <= fga <= 255,
    ;
}

fn blend_channel_exec(bgc: u8, bga: u8, fgc: u8, fga: u8) -> (r: u8)
    requires
        255 * fga + bga * (255 - fga) > 0,
    ensures
        r == blend_channel(bgc, bga, fgc, fga),
{
    proof {
        lemma_blend_bounds(bgc as int, bga as int, fgc as int, fga as int);
        vstd::arithmetic::div_mod::lemma_div_is_ordered(
            (255 * fgc * fga + bgc * bga * (255 - fga)) as int,
            255 * (255 * fga + bga * (255 - fga)) as int,
            (255 * fga + bga * (255 - fga)) as int,
        );
        vstd::arithmetic::div_mod::lemma_div_by_multiple(
            255,
            (255 * fga + bga * (255 - fga)) as int,
        );
    }
    let den: u32 = 255 * (fga as u32) + (bga as u32) * (255 - fga as u32);
    let num: u32 = 255 * (fgc as u32) * (fga as u32) + (bgc as u32) * (bga as u32) * (255
        - fga as u32);
    (num / den) as u8
}

/// Composite `fg` over `bg` with the standard "over" operator.
pub fn alpha_blend(bg: Color, fg: Color) -> (r: Color)
    ensures
        r == spec_alpha_blend(bg, fg),
{
    proof {
        lemma_blend_bounds(0, bg.a as int, 0, fg.a as int);
    }
    let den: u32 = 255 * (fg.a as u32) + (bg.a as u32) * (255 - fg.a as u32);
    if den == 0 {
        Color { r: 0, g: 0, b: 0, a: 0 }
    } else {
        Color {
            r: blend_channel_exec(bg.r, bg.a, fg.r, fg.a),
            g: blend_channel_exec(bg.g, bg.a, fg.g, fg.a),
            b: blend_channel_exec(bg.b, bg.a, fg.b, fg.a),
            a: (den / 255) as u8,
        }
    }
}

/// An opaque foreground fully replaces the background.
pub proof fn lemma_alpha_blend_opaque_fg(bg: Color, fg: Color)
    requires
        fg.a == 255,
    ensures
        spec_alpha_blend(bg, fg) == fg,
{
    vstd::arithmetic::div_mod::lemma_div_by_multiple(fg.r as int, 65025);
    vstd::arithmetic::div_mod::lemma_div_by_multiple(fg.g as int, 65025);
    vstd::arithmetic::div_mod::lemma_div_by_multiple(fg.b as int, 65025);
    vstd::arithmetic::div_mod::lemma_div_by_multiple(255, 255);
    assert(blend_denom(bg, fg) == 65025);
    assert(blend_channel(bg.r, bg.a, fg.r, 255) == fg.r);
    assert(blend_channel(bg.g, bg.a, fg.g, 255) == fg.g);
    assert(blend_channel(bg.b, bg.a, fg.b, 255) == fg.b);
}

/// A fully transparent foreground leaves a visible background unchanged.
pub proof fn lemma_alpha_blend_transparent_fg(bg: Color, fg: Color)
    requires
        fg.a == 0,
        bg.a > 0,
    ensures
        spec_alpha_blend(bg, fg) == bg,
{
    let ba: int = bg.a as int;
    let cr: int = bg.r as int;
    let cg: int = bg.g as int;
    let cb: int = bg.b as int;
    vstd::arithmetic::div_mod::lemma_div_by_multiple(cr, 255 * ba);
    vstd::arithmetic::div_mod::lemma_div_by_multiple(cg, 255 * ba);
    vstd::arithmetic::div_mod::lemma_div_by_multiple(cb, 255 * ba);
    vstd::arithmetic::div_mod::lemma_div_by_multiple(ba, 255);
    assert(cr * ba * 255 == cr * (255 * ba) && cg * ba * 255 == cg * (255 * ba) && cb * ba * 255
        == cb * (255 * ba) && ba * 255 == ba * 255) by (nonlinear_arith);
    assert(blend_denom(bg, fg) == ba * 255);
    assert(blend_channel(bg.r, bg.a, fg.r, 0) == bg.r);
    assert(blend_channel(bg.g, bg.a, fg.g, 0) == bg.g);
    assert(blend_channel(bg.b, bg.a, fg.b, 0) == bg.b);
}

/// Two fully transparent inputs compose to the fully transparent colour.
pub proof fn lemma_alpha_blend_both_transparent(bg: Color, fg: Color)
    requires
        fg.a == 0,
        bg.a == 0,
    ensures
        spec_alpha_blend(bg, fg) == (Color { r: 0, g: 0, b: 0, a: 0 }),
{
    assert(blend_denom(bg, fg) == 0);
}

} // verus!
