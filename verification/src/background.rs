//! The background renderer and frame compositor: styled canvas fill
//! (solid or gradient), drop shadow, rounded-corner masking and the final
//! composite of the video frame onto the canvas.

use vstd::prelude::*;
use crate::color::{
    alpha_blend, lerp_u8, parse_hex_color, spec_alpha_blend, spec_lerp_u8, spec_parse_hex_color,
    Color,
};
use crate::effects::{Background, FrameStyle, Shadow};
use crate::raster::Raster;
use crate::zoom::clamp_unit;

verus! {

/// The canvas is the frame plus the padding on every side.
pub fn calculate_canvas_size(frame_width: u32, frame_height: u32, style: &FrameStyle) -> (size: (
    u32,
    u32,
))
    requires
        frame_width + 2 * style.padding <= u32::MAX,
        frame_height + 2 * style.padding <= u32::MAX,
    ensures
        size.0 == frame_width + 2 * style.padding,
        size.1 == frame_height + 2 * style.padding,
{
    (frame_width + style.padding * 2, frame_height + style.padding * 2)
}

/// Squared Euclidean distance between `(x, y)` and `(cx, cy)`.
pub open spec fn spec_corner_dist2(x: int, y: int, cx: int, cy: int) -> int {
    (x - cx) * (x - cx) + (y - cy) * (y - cy)
}

/// Whether the pixel `(x, y)` of a `width` by `height` rectangle lies
/// inside the mask with corner rounding `radius`: it is excluded only
/// when it falls in one of the four radius-by-radius corner squares and
/// lies farther than `radius` from that corner's rounding-circle centre.
/// A radius of zero includes every pixel.
pub open spec fn spec_in_rounded_rect(x: int, y: int, width: int, height: int, radius: int) -> bool {
    radius == 0 || {
        &&& (x < radius && y < radius ==> spec_corner_dist2(x, y, radius, radius) <= radius
            * radius)
        &&& (x >= width - radius && y < radius ==> spec_corner_dist2(x, y, width - radius, radius)
            <= radius * radius)
        &&& (x < radius && y >= height - radius ==> spec_corner_dist2(
            x,
            y,
            radius,
            height - radius,
        ) <= radius * radius)
        &&& (x >= width - radius && y >= height - radius ==> spec_corner_dist2(
            x,
            y,
            width - radius,
            height - radius,
        ) <= radius * radius)
    }
}

/// Squared distance from `(x, y)` to the corner centre `(cx, cy)`.
fn corner_dist2(x: u32, y: u32, cx: u32, cy: u32) -> (d: u64)
    requires
        -0x80000000 <= x - cx <= 0x80000000,
        -0x80000000 <= y - cy <= 0x80000000,
    ensures
        d == spec_corner_dist2(x as int, y as int, cx as int, cy as int),
{
    let dx: u32 = if x >= cx {
        x - cx
    } else {
        cx - x
    };
    let dy: u32 = if y >= cy {
        y - cy
    } else {
        cy - y
    };
    proof {
        let dxi: int = dx as int;
        let dyi: int = dy as int;
        assert(dxi * dxi <= 0x80000000 * 0x80000000 && dyi * dyi <= 0x80000000 * 0x80000000 && (
        x - cx) * (x - cx) == dxi * dxi && (y - cy) * (y - cy) == dyi * dyi) by (nonlinear_arith)
            requires
                0 <= dxi <= 0x80000000,
                0 <= dyi <= 0x80000000,
                dxi == x - cx || dxi == cx - x,
                dyi == y - cy || dyi == cy - y,
        ;
    }
    (dx as u64) * (dx as u64) + (dy as u64) * (dy as u64)
}

/// Rounded-corner mask test for the pixel `(x, y)` of the frame
/// rectangle. The corner squares must fit inside the rectangle.
pub fn is_in_rounded_rect(x: u32, y: u32, width: u32, height: u32, radius: u32) -> (r: bool)
    requires
        x < width,
        y < height,
        radius == 0 || (2 * radius <= width && 2 * radius <= height),
    ensures
        r == spec_in_rounded_rect(x as int, y as int, width as int, height as int, radius as int),
{
    if radius == 0 {
        return true;
    }
    proof {
        assert(radius as int * radius as int <= 0x80000000 * 0x80000000) by (nonlinear_arith)
            requires
                0 <= radius <= 0x80000000,
        ;
    }
    let rr: u64 = (radius as u64) * (radius as u64);
    if x < radius && y < radius {
        corner_dist2(x, y, radius, radius) <= rr
    } else if x >= width - radius && y < radius {
        corner_dist2(x, y, width - radius, radius) <= rr
    } else if x < radius && y >= height - radius {
        corner_dist2(x, y, radius, height - radius) <= rr
    } else if x >= width - radius && y >= height - radius {
        corner_dist2(x, y, width - radius, height - radius) <= rr
    } else {
        true
    }
}

/// Size bounds on a frame style under which the rendering arithmetic
/// stays inside 64 bits: gradient directions are unit-vector components
/// in thousandths, the shadow opacity a fraction in thousandths.
pub open spec fn style_wf(style: FrameStyle) -> bool {
    &&& (style.background matches Background::Gradient { colors, dir_x, dir_y } ==> -1000 <= dir_x
        <= 1000 && -1000 <= dir_y <= 1000 && colors@.len() <= 1000000)
    &&& style.shadow.opacity <= 1000
    &&& style.shadow.blur <= 1000000
    &&& -1000000 <= style.shadow.offset_x <= 1000000
    &&& -1000000 <= style.shadow.offset_y <= 1000000
}

/// The smallest projection of the four canvas corners onto the gradient
/// direction.
pub open spec fn spec_min_proj(w: int, h: int, dx: int, dy: int) -> int {
    let b = w * dx;
    let c = h * dy;
    let d = w * dx + h * dy;
    let m1 = if 0 <= b {
        0int
    } else {
        b
    };
    let m2 = if c <= d {
        c
    } else {
        d
    };
    if m1 <= m2 {
        m1
    } else {
        m2
    }
}

/// The greatest projection of the four canvas corners onto the gradient
/// direction.
pub open spec fn spec_max_proj(w: int, h: int, dx: int, dy: int) -> int {
    let b = w * dx;
    let c = h * dy;
    let d = w * dx + h * dy;
    let m1 = if 0 >= b {
        0int
    } else {
        b
    };
    let m2 = if c >= d {
        c
    } else {
        d
    };
    if m1 >= m2 {
        m1
    } else {
        m2
    }
}

/// The gradient position of the pixel `(x, y)` in thousandths: its
/// projection onto the direction, normalized against the corner
/// projections. A degenerate direction yields position zero.
pub open spec fn spec_gradient_t(x: int, y: int, w: int, h: int, dx: int, dy: int) -> int {
    let minp = spec_min_proj(w, h, dx, dy);
    let range = spec_max_proj(w, h, dx, dy) - minp;
    if range <= 0 {
        0
    } else {
        clamp_unit((x * dx + y * dy - minp) * 1000 / range)
    }
}

/// The colour of the gradient at position `t` thousandths: piecewise
/// linear interpolation across the ordered stops, opaque alpha.
pub open spec fn spec_gradient_color(stops: Seq<Color>, t: int) -> Color {
    let count = stops.len() - 1;
    let st = t * count;
    let idx = if st / 1000 > count - 1 {
        count - 1
    } else {
        st / 1000
    };
    let lt = st - idx * 1000;
    Color {
        r: spec_lerp_u8(stops[idx].r, stops[idx + 1].r, lt as u64),
        g: spec_lerp_u8(stops[idx].g, stops[idx + 1].g, lt as u64),
        b: spec_lerp_u8(stops[idx].b, stops[idx + 1].b, lt as u64),
        a: 255,
    }
}

/// The parsed colour stops of a gradient.
pub open spec fn spec_parsed_stops(colors: Seq<String>) -> Seq<Color> {
    colors.map_values(|s: String| spec_parse_hex_color(s@))
}

/// The gradient colour owed to pixel `(px, py)` of a `w` by `h` canvas.
pub open spec fn spec_gradient_pixel(
    colors: Seq<String>,
    w: int,
    h: int,
    dx: int,
    dy: int,
    px: int,
    py: int,
) -> Color {
    spec_gradient_color(spec_parsed_stops(colors), spec_gradient_t(px, py, w, h, dx, dy))
}

/// Interpolate between the two stops around position `t` thousandths.
fn gradient_color_at(stops: &Vec<Color>, t: u64) -> (c: Color)
    requires
        2 <= stops@.len() <= 1000001,
        t <= 1000,
    ensures
        c == spec_gradient_color(stops@, t as int),
{
    let count: usize = stops.len() - 1;
    proof {
        vstd::arithmetic::mul::lemma_mul_upper_bound(t as int, 1000, count as int, 1000000);
    }
    let st: u64 = t * (count as u64);
    let idx0: u64 = st / 1000;
    let idx: usize = if idx0 > (count - 1) as u64 {
        count - 1
    } else {
        idx0 as usize
    };
    proof {
        vstd::arithmetic::div_mod::lemma_fundamental_div_mod(st as int, 1000);
        vstd::arithmetic::div_mod::lemma_mod_division_less_than_divisor(st as int, 1000);
        vstd::arithmetic::mul::lemma_mul_inequality(t as int, 1000, count as int);
    }
    let lt: u64 = st - (idx as u64) * 1000;
    let c1 = stops[idx];
    let c2 = stops[idx + 1];
    Color {
        r: lerp_u8(c1.r, c2.r, lt),
        g: lerp_u8(c1.g, c2.g, lt),
        b: lerp_u8(c1.b, c2.b, lt),
        a: 255,
    }
}

/// Fill the canvas with the gradient: every pixel is interpolated at its
/// normalized projection onto the direction. One stop degenerates to a
/// flat fill, none leaves the canvas untouched.
fn draw_gradient(canvas: &mut Raster, colors: &Vec<String>, dir_x: i64, dir_y: i64)
    requires
        old(canvas).wf(),
        -1000 <= dir_x <= 1000,
        -1000 <= dir_y <= 1000,
        colors@.len() <= 1000000,
    ensures
        final(canvas).wf(),
        final(canvas).width == old(canvas).width,
        final(canvas).height == old(canvas).height,
        colors@.len() == 0 ==> final(canvas).pixels@ == old(canvas).pixels@,
        colors@.len() == 1 ==> forall|k: int|
            0 <= k < final(canvas).pixels@.len() ==> final(canvas).pixels@[k]
                == spec_parse_hex_color(colors@[0]@),
        colors@.len() >= 2 ==> forall|px: int, py: int|
            0 <= px < final(canvas).width && 0 <= py < final(canvas).height
                ==> final(canvas).pixel(px, py) == spec_gradient_pixel(
                colors@,
                final(canvas).width as int,
                final(canvas).height as int,
                dir_x as int,
                dir_y as int,
                px,
                py,
            ),
{
    if colors.len() == 0 {
        return ;
    }
    if colors.len() == 1 {
        let c = parse_hex_color(colors[0].as_str());
        canvas.fill(c);
        return ;
    }
    let mut parsed: Vec<Color> = Vec::new();
    let ncolors = colors.len();
    for i in 0..ncolors
        invariant
            ncolors == colors@.len(),
            parsed@.len() == i,
            forall|j: int| 0 <= j < i ==> parsed@[j] == spec_parse_hex_color(colors@[j]@),
    {
        let c = parse_hex_color(colors[i].as_str());
        parsed.push(c);
    }
    proof {
        assert(parsed@ =~= spec_parsed_stops(colors@));
    }
    let w = canvas.width;
    let h = canvas.height;
    proof {
        assert(-4294967295000 <= w * dir_x <= 4294967295000 && -4294967295000 <= h * dir_y
            <= 4294967295000) by (nonlinear_arith)
            requires
                0 <= w <= 4294967295,
                0 <= h <= 4294967295,
                -1000 <= dir_x <= 1000,
                -1000 <= dir_y <= 1000,
        ;
    }
    let pb: i64 = (w as i64) * dir_x;
    let pc: i64 = (h as i64) * dir_y;
    let pd: i64 = pb + pc;
    let minp: i64 = {
        let m1: i64 = if 0 <= pb {
            0
        } else {
            pb
        };
        let m2: i64 = if pc <= pd {
            pc
        } else {
            pd
        };
        if m1 <= m2 {
            m1
        } else {
            m2
        }
    };
    let maxp: i64 = {
        let m1: i64 = if 0 >= pb {
            0
        } else {
            pb
        };
        let m2: i64 = if pc >= pd {
            pc
        } else {
            pd
        };
        if m1 >= m2 {
            m1
        } else {
            m2
        }
    };
    let range: i64 = maxp - minp;
    let mut y: u32 = 0;
    while y < h
        invariant
            canvas.wf(),
            canvas.width == w,
            canvas.height == h,
            w == old(canvas).width,
            h == old(canvas).height,
            y <= h,
            2 <= ncolors == colors@.len() <= 1000000,
            parsed@ == spec_parsed_stops(colors@),
            parsed@.len() == ncolors,
            -1000 <= dir_x <= 1000,
            -1000 <= dir_y <= 1000,
            minp == spec_min_proj(w as int, h as int, dir_x as int, dir_y as int),
            maxp == spec_max_proj(w as int, h as int, dir_x as int, dir_y as int),
            -8589934590000 <= minp <= 8589934590000,
            -8589934590000 <= maxp <= 8589934590000,
            range == maxp - minp,
            forall|k: int|
                0 <= k < y * w ==> canvas.pixels@[k] == spec_gradient_pixel(
                    colors@,
                    w as int,
                    h as int,
                    dir_x as int,
                    dir_y as int,
                    k % (w as int),
                    k / (w as int),
                ),
        decreases h - y,
    {
        let mut x: u32 = 0;
        while x < w
            invariant
                canvas.wf(),
                canvas.width == w,
                canvas.height == h,
                y < h,
                x <= w,
                2 <= ncolors == colors@.len() <= 1000000,
                parsed@ == spec_parsed_stops(colors@),
                parsed@.len() == ncolors,
                -1000 <= dir_x <= 1000,
                -1000 <= dir_y <= 1000,
                minp == spec_min_proj(w as int, h as int, dir_x as int, dir_y as int),
                maxp == spec_max_proj(w as int, h as int, dir_x as int, dir_y as int),
                -8589934590000 <= minp <= 8589934590000,
                -8589934590000 <= maxp <= 8589934590000,
                range == maxp - minp,
                forall|k: int|
                    0 <= k < y * w + x ==> canvas.pixels@[k] == spec_gradient_pixel(
                        colors@,
                        w as int,
                        h as int,
                        dir_x as int,
                        dir_y as int,
                        k % (w as int),
                        k / (w as int),
                    ),
            decreases w - x,
        {
            proof {
                assert(-4294967295000 <= x * dir_x <= 4294967295000 && -4294967295000 <= y * dir_y
                    <= 4294967295000) by (nonlinear_arith)
                    requires
                        0 <= x <= 4294967295,
                        0 <= y <= 4294967295,
                        -1000 <= dir_x <= 1000,
                        -1000 <= dir_y <= 1000,
                ;
            }
            let proj: i64 = (x as i64) * dir_x + (y as i64) * dir_y;
            let num: i64 = (proj - minp) * 1000;
            let t: u64 = if range <= 0 {
                0
            } else if num <= 0 {
                proof {
                    vstd::arithmetic::div_mod::lemma_div_is_ordered(
                        num as int,
                        0,
                        range as int,
                    );
                    vstd::arithmetic::div_mod::lemma_div_of0(range as int);
                }
                0
            } else {
                let q: u64 = (num as u64) / (range as u64);
                if q > 1000 {
                    1000
                } else {
                    q
                }
            };
            let c = gradient_color_at(&parsed, t);
            let ghost prev = canvas.pixels@;
            canvas.put_pixel(x, y, c);
            proof {
                assert(canvas.pixels@ == prev.update(y * w + x, c));
                canvas.lemma_pos_in_bounds(x as int, y as int);
                assert(prev.len() == w * h && canvas.pixels@.len() == w * h);
                vstd::arithmetic::div_mod::lemma_fundamental_div_mod_converse(
                    y * w + x,
                    w as int,
                    y as int,
                    x as int,
                );
                assert forall|k: int| 0 <= k < y * w + x + 1 implies canvas.pixels@[k]
                    == spec_gradient_pixel(
                    colors@,
                    w as int,
                    h as int,
                    dir_x as int,
                    dir_y as int,
                    k % (w as int),
                    k / (w as int),
                ) by {
                    if k != y * w + x {
                        vstd::seq::lemma_seq_update_different_alt(prev, k, y * w + x, c);
                        assert(canvas.pixels@[k] == prev[k]);
                    } else {
                        vstd::seq::lemma_seq_update_same_alt(prev, y * w + x, c);
                        assert(t as int == spec_gradient_t(
                            x as int,
                            y as int,
                            w as int,
                            h as int,
                            dir_x as int,
                            dir_y as int,
                        ));
                    }
                }
            }
            x = x + 1;
        }
        proof {
            assert((y + 1) * w == y * w + w) by (nonlinear_arith);
        }
        y = y + 1;
    }
    proof {
        assert forall|px: int, py: int| 0 <= px < w && 0 <= py < h implies canvas.pixel(px, py)
            == spec_gradient_pixel(
            colors@,
            w as int,
            h as int,
            dir_x as int,
            dir_y as int,
            px,
            py,
        ) by {
            canvas.lemma_pos_in_bounds(px, py);
            vstd::arithmetic::div_mod::lemma_fundamental_div_mod_converse(
                py * w + px,
                w as int,
                py,
                px,
            );
            assert(h * w == w * h) by (nonlinear_arith);
        }
    }
}

/// The colour owed to buffer position `k` of a `w` by `h` canvas under
/// the given style: the solid colour, the gradient, or the fixed dark
/// fill standing in for the unimplemented image background. An empty
/// gradient leaves the fully transparent canvas.
pub open spec fn spec_background_pixel(style: FrameStyle, w: int, h: int, k: int) -> Color {
    match style.background {
        Background::Solid { color } => spec_parse_hex_color(color@),
        Background::Image { path } => spec_parse_hex_color("#1a1a2e"@),
        Background::Gradient { colors, dir_x, dir_y } => {
            if colors@.len() == 0 {
                Color { r: 0, g: 0, b: 0, a: 0 }
            } else if colors@.len() == 1 {
                spec_parse_hex_color(colors@[0]@)
            } else {
                spec_gradient_pixel(colors@, w, h, dir_x as int, dir_y as int, k % w, k / w)
            }
        },
    }
}

/// Render the styled background canvas: a flat fill for a solid colour,
/// the gradient fill for a gradient, and the fixed dark fill standing in
/// for the unimplemented image background.
pub fn render_background(canvas_width: u32, canvas_height: u32, style: &FrameStyle) -> (r: Raster)
    requires
        canvas_width * canvas_height <= usize::MAX,
        style_wf(*style),
    ensures
        r.wf(),
        r.width == canvas_width,
        r.height == canvas_height,
        forall|k: int|
            0 <= k < r.pixels@.len() ==> r.pixels@[k] == spec_background_pixel(
                *style,
                canvas_width as int,
                canvas_height as int,
                k,
            ),
        style.background matches Background::Solid { color } ==> forall|k: int|
            0 <= k < r.pixels@.len() ==> r.pixels@[k] == spec_parse_hex_color(color@),
        style.background matches Background::Image { path } ==> forall|k: int|
            0 <= k < r.pixels@.len() ==> r.pixels@[k] == spec_parse_hex_color("#1a1a2e"@),
        style.background matches Background::Gradient { colors, dir_x, dir_y } ==> {
            &&& colors@.len() == 0 ==> forall|k: int|
                0 <= k < r.pixels@.len() ==> r.pixels@[k] == (Color { r: 0, g: 0, b: 0, a: 0 })
            &&& colors@.len() == 1 ==> forall|k: int|
                0 <= k < r.pixels@.len() ==> r.pixels@[k] == spec_parse_hex_color(colors@[0]@)
            &&& colors@.len() >= 2 ==> forall|px: int, py: int|
                0 <= px < canvas_width && 0 <= py < canvas_height ==> r.pixel(px, py)
                    == spec_gradient_color(
                    spec_parsed_stops(colors@),
                    spec_gradient_t(
                        px,
                        py,
                        canvas_width as int,
                        canvas_height as int,
                        dir_x as int,
                        dir_y as int,
                    ),
                )
        },
{
    let mut canvas = Raster::new(canvas_width, canvas_height);
    match &style.background {
        Background::Solid { color } => {
            let c = parse_hex_color(color.as_str());
            canvas.fill(c);
        },
        Background::Gradient { colors, dir_x, dir_y } => {
            draw_gradient(&mut canvas, colors, *dir_x, *dir_y);
        },
        Background::Image { path: _ } => {
            let c = parse_hex_color("#1a1a2e");
            canvas.fill(c);
        },
    }
    proof {
        assert forall|k: int| 0 <= k < canvas.pixels@.len() implies canvas.pixels@[k]
            == spec_background_pixel(*style, canvas_width as int, canvas_height as int, k) by {
            match style.background {
                Background::Gradient { colors, dir_x, dir_y } => {
                    if colors@.len() >= 2 {
                        let w = canvas_width as int;
                        let h = canvas_height as int;
                        assert(canvas_width > 0) by (nonlinear_arith)
                            requires
                                0 <= k < canvas_width * canvas_height,
                                0 <= canvas_width,
                        ;
                        vstd::arithmetic::div_mod::lemma_fundamental_div_mod(k, w);
                        vstd::arithmetic::div_mod::lemma_mod_division_less_than_divisor(k, w);
                        vstd::arithmetic::div_mod::lemma_div_pos_is_pos(k, w);
                        vstd::arithmetic::div_mod::lemma_multiply_divide_lt(k, w, h);
                        assert(canvas.pixel(k % w, k / w) == canvas.pixels@[(k / w) * w + k % w]);
                        vstd::arithmetic::mul::lemma_mul_is_commutative(w, k / w);
                    }
                },
                _ => {},
            }
        }
    }
    canvas
}

/// The integer square root: the greatest integer whose square is at
/// most `n`.
pub open spec fn spec_isqrt(n: nat) -> nat
    decreases n,
{
    if n == 0 {
        0
    } else {
        let p = spec_isqrt((n - 1) as nat);
        if (p + 1) * (p + 1) <= n {
            p + 1
        } else {
            p
        }
    }
}

/// The defining bounds of the integer square root.
pub proof fn lemma_isqrt_bounds(n: nat)
    ensures
        spec_isqrt(n) * spec_isqrt(n) <= n,
        n < (spec_isqrt(n) + 1) * (spec_isqrt(n) + 1),
    decreases n,
{
    if n == 0 {
        assert(spec_isqrt(0) == 0);
        assert(0 * 0 <= 0 && 0 < 1 * 1) by (nonlinear_arith);
    } else {
        lemma_isqrt_bounds((n - 1) as nat);
        let p = spec_isqrt((n - 1) as nat);
        if (p + 1) * (p + 1) <= n {
            assert(spec_isqrt(n) == p + 1);
            assert(n < ((p + 1) + 1) * ((p + 1) + 1)) by (nonlinear_arith)
                requires
                    n - 1 < (p + 1) * (p + 1),
                    0 <= p,
            ;
        } else {
            assert(spec_isqrt(n) == p);
        }
    }
}

/// Any integer within the defining bounds is the integer square root.
pub proof fn lemma_isqrt_unique(n: nat, r: nat)
    requires
        r * r <= n,
        n < (r + 1) * (r + 1),
    ensures
        r == spec_isqrt(n),
{
    lemma_isqrt_bounds(n);
    let s = spec_isqrt(n);
    assert(r == s) by (nonlinear_arith)
        requires
            r * r <= n < (r + 1) * (r + 1),
            s * s <= n < (s + 1) * (s + 1),
            0 <= r,
            0 <= s,
    ;
}

/// Binary search for the integer square root.
fn isqrt64(n: u64) -> (r: u64)
    requires
        n <= 0x4000000000000000,
    ensures
        r == spec_isqrt(n as nat),
{
    let mut lo: u64 = 0;
    let mut hi: u64 = 0x80000000;
    proof {
        assert(0x80000001u64 * 0x80000001u64 > 0x4000000000000000) by (nonlinear_arith);
    }
    while lo < hi
        invariant
            lo <= hi <= 0x80000000,
            lo * lo <= n,
            n < (hi + 1) * (hi + 1),
        decreases hi - lo,
    {
        let mid: u64 = lo + (hi - lo + 1) / 2;
        proof {
            assert(lo < mid <= hi);
            assert(mid * mid <= 0x80000000u64 * 0x80000000u64) by (nonlinear_arith)
                requires
                    0 <= mid <= 0x80000000u64,
            ;
        }
        if mid * mid <= n {
            lo = mid;
        } else {
            hi = mid - 1;
        }
    }
    proof {
        lemma_isqrt_unique(n as nat, lo as nat);
    }
    lo
}

/// The distance of a coordinate from an interval `[0, extent)`: zero
/// inside, counted from one on the far side.
pub open spec fn spec_edge_dist(d: int, extent: int) -> int {
    if d < 0 {
        -d
    } else if d >= extent {
        d - extent + 1
    } else {
        0
    }
}

/// Whether the shifted frame-relative offsets lie inside the shadow box.
pub open spec fn spec_in_shadow_box(ddx: int, ddy: int, fw: int, fh: int, blur: int) -> bool {
    -blur <= ddx <= fw + blur && -blur <= ddy <= fh + blur
}

/// The colour of one canvas pixel after the shadow pass: within the
/// shadow box, the shadow colour is composited over the pixel with an
/// alpha that falls off linearly with the distance from the frame
/// rectangle. `ddx`/`ddy` are the pixel's offsets from the shifted
/// rectangle origin, `salpha` the shadow's base alpha. A zero blur
/// draws nothing.
pub open spec fn spec_shadow_pixel(
    orig: Color,
    ddx: int,
    ddy: int,
    fw: int,
    fh: int,
    blur: int,
    sc: Color,
    salpha: int,
) -> Color {
    if blur > 0 && spec_in_shadow_box(ddx, ddy, fw, fh, blur) {
        let ex = spec_edge_dist(ddx, fw);
        let ey = spec_edge_dist(ddy, fh);
        let d = spec_isqrt((ex * ex + ey * ey) as nat);
        if d <= blur {
            spec_alpha_blend(
                orig,
                Color { r: sc.r, g: sc.g, b: sc.b, a: (salpha * (blur - d) / blur) as u8 },
            )
        } else {
            orig
        }
    } else {
        orig
    }
}

/// Whether the shadow scan, standing at row `cy` and column `cx` of the
/// box, has already visited the offsets `(ddx, ddy)`.
pub open spec fn spec_shadow_visited(
    ddx: int,
    ddy: int,
    fw: int,
    fh: int,
    blur: int,
    cy: int,
    cx: int,
) -> bool {
    spec_in_shadow_box(ddx, ddy, fw, fh, blur) && (ddy < cy || (ddy == cy && ddx < cx))
}

/// Draw the approximated drop shadow of the (shifted) frame rectangle
/// onto the canvas: each pixel within `blur` of the rectangle receives
/// the shadow colour, composited with linear falloff over the distance.
#[verifier::rlimit(100)]
pub fn draw_shadow(
    canvas: &mut Raster,
    offset_x: u32,
    offset_y: u32,
    width: u32,
    height: u32,
    shadow: &Shadow,
)
    requires
        old(canvas).wf(),
        shadow.opacity <= 1000,
        shadow.blur <= 1000000,
        -1000000 <= shadow.offset_x <= 1000000,
        -1000000 <= shadow.offset_y <= 1000000,
    ensures
        final(canvas).wf(),
        final(canvas).width == old(canvas).width,
        final(canvas).height == old(canvas).height,
        forall|k: int|
            0 <= k < final(canvas).pixels@.len() ==> final(canvas).pixels@[k]
                == spec_shadow_pixel(
                old(canvas).pixels@[k],
                k % (old(canvas).width as int) - offset_x - shadow.offset_x,
                k / (old(canvas).width as int) - offset_y - shadow.offset_y,
                width as int,
                height as int,
                shadow.blur as int,
                spec_parse_hex_color(shadow.color@),
                shadow.opacity * 255 / 1000,
            ),
{
    let blur_u: u32 = shadow.blur;
    if blur_u == 0 {
        return ;
    }
    let sc = parse_hex_color(shadow.color.as_str());
    let salpha: u64 = shadow.opacity * 255 / 1000;
    proof {
        vstd::arithmetic::div_mod::lemma_div_is_ordered(
            shadow.opacity * 255,
            255000,
            1000,
        );
        vstd::arithmetic::div_mod::lemma_div_by_multiple(255, 1000);
        vstd::arithmetic::div_mod::lemma_div_pos_is_pos(shadow.opacity * 255, 1000);
    }
    let cw = canvas.width;
    let ch = canvas.height;
    let blur: i64 = blur_u as i64;
    let sx: i64 = shadow.offset_x;
    let sy: i64 = shadow.offset_y;
    let ghost orig = canvas.pixels@;
    let ghost scol = spec_parse_hex_color(shadow.color@);
    let mut dy: i64 = -blur;
    while dy <= height as i64 + blur
        invariant
            canvas.wf(),
            canvas.width == cw == old(canvas).width,
            canvas.height == ch == old(canvas).height,
            orig == old(canvas).pixels@,
            orig.len() == cw * ch,
            canvas.pixels@.len() == orig.len(),
            1 <= blur == blur_u == shadow.blur <= 1000000,
            sx == shadow.offset_x,
            sy == shadow.offset_y,
            -1000000 <= sx <= 1000000,
            -1000000 <= sy <= 1000000,
            0 <= salpha == shadow.opacity * 255 / 1000 <= 255,
            sc == scol && scol == spec_parse_hex_color(shadow.color@),
            -blur <= dy <= height + blur + 1,
            forall|k: int|
                0 <= k < orig.len() ==> canvas.pixels@[k] == (if spec_shadow_visited(
                    k % (cw as int) - offset_x - sx,
                    k / (cw as int) - offset_y - sy,
                    width as int,
                    height as int,
                    blur as int,
                    dy as int,
                    -(blur as int),
                ) {
                    spec_shadow_pixel(
                        orig[k],
                        k % (cw as int) - offset_x - sx,
                        k / (cw as int) - offset_y - sy,
                        width as int,
                        height as int,
                        blur as int,
                        scol,
                        salpha as int,
                    )
                } else {
                    orig[k]
                }),
        decreases height + blur + 1 - dy,
    {
        let mut dx: i64 = -blur;
        while dx <= width as i64 + blur
            invariant
                canvas.wf(),
                canvas.width == cw == old(canvas).width,
                canvas.height == ch == old(canvas).height,
                orig == old(canvas).pixels@,
                orig.len() == cw * ch,
                canvas.pixels@.len() == orig.len(),
                1 <= blur == blur_u == shadow.blur <= 1000000,
                sx == shadow.offset_x,
                sy == shadow.offset_y,
                -1000000 <= sx <= 1000000,
                -1000000 <= sy <= 1000000,
                0 <= salpha == shadow.opacity * 255 / 1000 <= 255,
                sc == scol && scol == spec_parse_hex_color(shadow.color@),
                -blur <= dy <= height + blur,
                -blur <= dx <= width + blur + 1,
                forall|k: int|
                    0 <= k < orig.len() ==> canvas.pixels@[k] == (if spec_shadow_visited(
                        k % (cw as int) - offset_x - sx,
                        k / (cw as int) - offset_y - sy,
                        width as int,
                        height as int,
                        blur as int,
                        dy as int,
                        dx as int,
                    ) {
                        spec_shadow_pixel(
                            orig[k],
                            k % (cw as int) - offset_x - sx,
                            k / (cw as int) - offset_y - sy,
                            width as int,
                            height as int,
                            blur as int,
                            scol,
                            salpha as int,
                        )
                    } else {
                        orig[k]
                    }),
            decreases width + blur + 1 - dx,
        {
            let px: i64 = offset_x as i64 + dx + sx;
            let py: i64 = offset_y as i64 + dy + sy;
            let ghost prev = canvas.pixels@;
            if 0 <= px && 0 <= py && px < cw as i64 && py < ch as i64 {
                let ex: i64 = if dx < 0 {
                    -dx
                } else if dx >= width as i64 {
                    dx - width as i64 + 1
                } else {
                    0
                };
                let ey: i64 = if dy < 0 {
                    -dy
                } else if dy >= height as i64 {
                    dy - height as i64 + 1
                } else {
                    0
                };
                proof {
                    assert(ex as int == spec_edge_dist(dx as int, width as int));
                    assert(ey as int == spec_edge_dist(dy as int, height as int));
                    assert((ex as u64) * (ex as u64) <= 1000001u64 * 1000001u64 && (ey as u64) * (
                    ey as u64) <= 1000001u64 * 1000001u64) by (nonlinear_arith)
                        requires
                            0 <= ex <= 1000001,
                            0 <= ey <= 1000001,
                    ;
                }
                let d2: u64 = (ex as u64) * (ex as u64) + (ey as u64) * (ey as u64);
                let d: u64 = isqrt64(d2);
                if d <= blur_u as u64 {
                    proof {
                        vstd::arithmetic::mul::lemma_mul_upper_bound(
                            salpha as int,
                            255,
                            blur - d,
                            1000000,
                        );
                        vstd::arithmetic::mul::lemma_mul_inequality(
                            salpha as int,
                            255,
                            blur - d,
                        );
                        vstd::arithmetic::div_mod::lemma_div_is_ordered(
                            salpha * (blur - d),
                            255 * (blur - d),
                            blur as int,
                        );
                        vstd::arithmetic::div_mod::lemma_div_is_ordered(
                            255 * (blur - d),
                            255 * blur,
                            blur as int,
                        );
                        vstd::arithmetic::div_mod::lemma_div_by_multiple(255, blur as int);
                        assert(255 * blur == blur * 255 && (salpha as int) * (blur - d) == salpha
                            * (blur - d)) by (nonlinear_arith);
                        vstd::arithmetic::mul::lemma_mul_nonnegative(
                            salpha as int,
                            blur - d,
                        );
                        vstd::arithmetic::div_mod::lemma_div_pos_is_pos(
                            salpha * (blur - d),
                            blur as int,
                        );
                    }
                    let a64: u64 = salpha * ((blur_u as u64) - d) / (blur_u as u64);
                    let existing = canvas.get_pixel(px as u32, py as u32);
                    let blended = alpha_blend(
                        existing,
                        Color { r: sc.r, g: sc.g, b: sc.b, a: a64 as u8 },
                    );
                    canvas.put_pixel(px as u32, py as u32, blended);
                    proof {
                        let k0 = (py as int) * cw + px as int;
                        canvas.lemma_pos_in_bounds(px as int, py as int);
                        vstd::arithmetic::div_mod::lemma_fundamental_div_mod_converse(
                            k0,
                            cw as int,
                            py as int,
                            px as int,
                        );
                        assert(canvas.pixels@ == prev.update(k0, blended));
                        assert forall|k: int| 0 <= k < orig.len() implies canvas.pixels@[k] == (
                        if spec_shadow_visited(
                            k % (cw as int) - offset_x - sx,
                            k / (cw as int) - offset_y - sy,
                            width as int,
                            height as int,
                            blur as int,
                            dy as int,
                            dx as int + 1,
                        ) {
                            spec_shadow_pixel(
                                orig[k],
                                k % (cw as int) - offset_x - sx,
                                k / (cw as int) - offset_y - sy,
                                width as int,
                                height as int,
                                blur as int,
                                scol,
                                salpha as int,
                            )
                        } else {
                            orig[k]
                        }) by {
                            vstd::arithmetic::div_mod::lemma_fundamental_div_mod(k, cw as int);
                            vstd::arithmetic::div_mod::lemma_mod_division_less_than_divisor(
                                k,
                                cw as int,
                            );
                            if k != k0 {
                                vstd::seq::lemma_seq_update_different_alt(prev, k, k0, blended);
                                vstd::arithmetic::mul::lemma_mul_is_commutative(
                                    cw as int,
                                    k / (cw as int),
                                );
                                vstd::arithmetic::mul::lemma_mul_is_commutative(
                                    cw as int,
                                    py as int,
                                );
                                assert(k % (cw as int) != px || k / (cw as int) != py);
                            } else {
                                vstd::seq::lemma_seq_update_same_alt(prev, k0, blended);
                                assert(prev[k0] == orig[k0]);
                            }
                        }
                    }
                } else {
                    proof {
                        let k0 = (py as int) * cw + px as int;
                        canvas.lemma_pos_in_bounds(px as int, py as int);
                        vstd::arithmetic::div_mod::lemma_fundamental_div_mod_converse(
                            k0,
                            cw as int,
                            py as int,
                            px as int,
                        );
                        assert forall|k: int| 0 <= k < orig.len() implies canvas.pixels@[k] == (
                        if spec_shadow_visited(
                            k % (cw as int) - offset_x - sx,
                            k / (cw as int) - offset_y - sy,
                            width as int,
                            height as int,
                            blur as int,
                            dy as int,
                            dx as int + 1,
                        ) {
                            spec_shadow_pixel(
                                orig[k],
                                k % (cw as int) - offset_x - sx,
                                k / (cw as int) - offset_y - sy,
                                width as int,
                                height as int,
                                blur as int,
                                scol,
                                salpha as int,
                            )
                        } else {
                            orig[k]
                        }) by {
                            vstd::arithmetic::div_mod::lemma_fundamental_div_mod(k, cw as int);
                            vstd::arithmetic::div_mod::lemma_mod_division_less_than_divisor(
                                k,
                                cw as int,
                            );
                            if k != (py as int) * cw + px as int {
                                vstd::arithmetic::mul::lemma_mul_is_commutative(
                                    cw as int,
                                    k / (cw as int),
                                );
                                vstd::arithmetic::mul::lemma_mul_is_commutative(
                                    cw as int,
                                    py as int,
                                );
                                assert(k % (cw as int) != px || k / (cw as int) != py);
                            } else {
                                assert(k % (cw as int) == px && k / (cw as int) == py);
                                assert(spec_shadow_pixel(
                                    orig[k],
                                    dx as int,
                                    dy as int,
                                    width as int,
                                    height as int,
                                    blur as int,
                                    scol,
                                    salpha as int,
                                ) == orig[k]);
                            }
                        }
                    }
                }
            } else {
                proof {
                    assert forall|k: int| 0 <= k < orig.len() implies canvas.pixels@[k] == (
                    if spec_shadow_visited(
                        k % (cw as int) - offset_x - sx,
                        k / (cw as int) - offset_y - sy,
                        width as int,
                        height as int,
                        blur as int,
                        dy as int,
                        dx as int + 1,
                    ) {
                        spec_shadow_pixel(
                            orig[k],
                            k % (cw as int) - offset_x - sx,
                            k / (cw as int) - offset_y - sy,
                            width as int,
                            height as int,
                            blur as int,
                            scol,
                            salpha as int,
                        )
                    } else {
                        orig[k]
                    }) by {
                        assert(cw > 0) by (nonlinear_arith)
                            requires
                                0 <= k < cw * ch,
                                0 <= cw,
                        ;
                        vstd::arithmetic::div_mod::lemma_fundamental_div_mod(k, cw as int);
                        vstd::arithmetic::div_mod::lemma_mod_division_less_than_divisor(
                            k,
                            cw as int,
                        );
                        vstd::arithmetic::div_mod::lemma_div_pos_is_pos(k, cw as int);
                        vstd::arithmetic::div_mod::lemma_multiply_divide_lt(
                            k,
                            cw as int,
                            ch as int,
                        );
                        assert(k % (cw as int) != px || k / (cw as int) != py);
                    }
                }
            }
            dx = dx + 1;
        }
        dy = dy + 1;
    }
    proof {
        assert forall|k: int| 0 <= k < canvas.pixels@.len() implies canvas.pixels@[k]
            == spec_shadow_pixel(
            orig[k],
            k % (cw as int) - offset_x - sx,
            k / (cw as int) - offset_y - sy,
            width as int,
            height as int,
            blur as int,
            scol,
            salpha as int,
        ) by {
            assert(cw > 0) by (nonlinear_arith)
                requires
                    0 <= k < cw * ch,
                    0 <= cw,
            ;
            vstd::arithmetic::div_mod::lemma_fundamental_div_mod(k, cw as int);
            vstd::arithmetic::div_mod::lemma_mod_division_less_than_divisor(k, cw as int);
        }
    }
}

/// The colour of one canvas pixel after the frame pass: where the frame
/// overlaps the canvas and the rounded mask includes the pixel, the
/// frame pixel replaces it; elsewhere the pixel is untouched.
pub open spec fn spec_masked_pixel(
    under: Color,
    fpixels: Seq<Color>,
    fw: int,
    fh: int,
    px: int,
    py: int,
    ox: int,
    oy: int,
    radius: int,
) -> Color {
    let fx = px - ox;
    let fy = py - oy;
    if 0 <= fx < fw && 0 <= fy < fh && spec_in_rounded_rect(fx, fy, fw, fh, radius) {
        fpixels[fy * fw + fx]
    } else {
        under
    }
}

/// As `spec_masked_pixel`, with the frame given as a raster.
pub open spec fn spec_framed_pixel(
    under: Color,
    frame: Raster,
    px: int,
    py: int,
    ox: int,
    oy: int,
    radius: int,
) -> Color {
    spec_masked_pixel(
        under,
        frame.pixels@,
        frame.width as int,
        frame.height as int,
        px,
        py,
        ox,
        oy,
        radius,
    )
}

/// Draw the video frame onto the canvas at the given offset, keeping
/// only the pixels the rounded-corner mask includes.
#[verifier::rlimit(100)]
pub fn draw_rounded_frame(
    canvas: &mut Raster,
    frame: &Raster,
    offset_x: u32,
    offset_y: u32,
    radius: u32,
)
    requires
        old(canvas).wf(),
        frame.wf(),
        radius == 0 || (2 * radius <= frame.width && 2 * radius <= frame.height),
        offset_x + frame.width <= u32::MAX,
        offset_y + frame.height <= u32::MAX,
    ensures
        final(canvas).wf(),
        final(canvas).width == old(canvas).width,
        final(canvas).height == old(canvas).height,
        forall|k: int|
            0 <= k < final(canvas).pixels@.len() ==> final(canvas).pixels@[k]
                == spec_framed_pixel(
                old(canvas).pixels@[k],
                *frame,
                k % (old(canvas).width as int),
                k / (old(canvas).width as int),
                offset_x as int,
                offset_y as int,
                radius as int,
            ),
{
    let cw = canvas.width;
    let ch = canvas.height;
    let fw = frame.width;
    let fh = frame.height;
    let ghost orig = canvas.pixels@;
    let mut y: u32 = 0;
    while y < fh
        invariant
            canvas.wf(),
            canvas.width == cw == old(canvas).width,
            canvas.height == ch == old(canvas).height,
            orig == old(canvas).pixels@,
            orig.len() == cw * ch,
            canvas.pixels@.len() == orig.len(),
            frame.wf(),
            fw == frame.width,
            fh == frame.height,
            radius == 0 || (2 * radius <= fw && 2 * radius <= fh),
            offset_x + fw <= u32::MAX,
            offset_y + fh <= u32::MAX,
            y <= fh,
            forall|k: int|
                0 <= k < orig.len() ==> canvas.pixels@[k] == ({
                    let fx = k % (cw as int) - offset_x;
                    let fy = k / (cw as int) - offset_y;
                    if 0 <= fx < fw && 0 <= fy < fh && fy < y && spec_in_rounded_rect(
                        fx,
                        fy,
                        fw as int,
                        fh as int,
                        radius as int,
                    ) {
                        frame.pixel(fx, fy)
                    } else {
                        orig[k]
                    }
                }),
        decreases fh - y,
    {
        let mut x: u32 = 0;
        while x < fw
            invariant
                canvas.wf(),
                canvas.width == cw == old(canvas).width,
                canvas.height == ch == old(canvas).height,
                orig == old(canvas).pixels@,
                orig.len() == cw * ch,
                canvas.pixels@.len() == orig.len(),
                frame.wf(),
                fw == frame.width,
                fh == frame.height,
                radius == 0 || (2 * radius <= fw && 2 * radius <= fh),
                offset_x + fw <= u32::MAX,
                offset_y + fh <= u32::MAX,
                y < fh,
                x <= fw,
                forall|k: int|
                    0 <= k < orig.len() ==> canvas.pixels@[k] == ({
                        let fx = k % (cw as int) - offset_x;
                        let fy = k / (cw as int) - offset_y;
                        if 0 <= fx < fw && 0 <= fy < fh && (fy < y || (fy == y && fx < x))
                            && spec_in_rounded_rect(fx, fy, fw as int, fh as int, radius as int) {
                            frame.pixel(fx, fy)
                        } else {
                            orig[k]
                        }
                    }),
            decreases fw - x,
        {
            let inside = is_in_rounded_rect(x, y, fw, fh, radius);
            let px: u32 = offset_x + x;
            let py: u32 = offset_y + y;
            let ghost prev = canvas.pixels@;
            if inside && px < cw && py < ch {
                let p = frame.get_pixel(x, y);
                canvas.put_pixel(px, py, p);
                proof {
                    let k0 = (py as int) * cw + px as int;
                    canvas.lemma_pos_in_bounds(px as int, py as int);
                    vstd::arithmetic::div_mod::lemma_fundamental_div_mod_converse(
                        k0,
                        cw as int,
                        py as int,
                        px as int,
                    );
                    assert(canvas.pixels@ == prev.update(k0, p));
                    assert forall|k: int| 0 <= k < orig.len() implies canvas.pixels@[k] == ({
                        let fx = k % (cw as int) - offset_x;
                        let fy = k / (cw as int) - offset_y;
                        if 0 <= fx < fw && 0 <= fy < fh && (fy < y || (fy == y && fx < x + 1))
                            && spec_in_rounded_rect(fx, fy, fw as int, fh as int, radius as int) {
                            frame.pixel(fx, fy)
                        } else {
                            orig[k]
                        }
                    }) by {
                        vstd::arithmetic::div_mod::lemma_fundamental_div_mod(k, cw as int);
                        vstd::arithmetic::div_mod::lemma_mod_division_less_than_divisor(
                            k,
                            cw as int,
                        );
                        if k != k0 {
                            vstd::seq::lemma_seq_update_different_alt(prev, k, k0, p);
                            vstd::arithmetic::mul::lemma_mul_is_commutative(
                                cw as int,
                                k / (cw as int),
                            );
                            vstd::arithmetic::mul::lemma_mul_is_commutative(
                                cw as int,
                                py as int,
                            );
                            assert(k % (cw as int) != px || k / (cw as int) != py);
                        } else {
                            vstd::seq::lemma_seq_update_same_alt(prev, k0, p);
                        }
                    }
                }
            } else {
                proof {
                    assert forall|k: int| 0 <= k < orig.len() implies canvas.pixels@[k] == ({
                        let fx = k % (cw as int) - offset_x;
                        let fy = k / (cw as int) - offset_y;
                        if 0 <= fx < fw && 0 <= fy < fh && (fy < y || (fy == y && fx < x + 1))
                            && spec_in_rounded_rect(fx, fy, fw as int, fh as int, radius as int) {
                            frame.pixel(fx, fy)
                        } else {
                            orig[k]
                        }
                    }) by {
                        assert(cw > 0) by (nonlinear_arith)
                            requires
                                0 <= k < cw * ch,
                                0 <= cw,
                        ;
                        vstd::arithmetic::div_mod::lemma_fundamental_div_mod(k, cw as int);
                        vstd::arithmetic::div_mod::lemma_mod_division_less_than_divisor(
                            k,
                            cw as int,
                        );
                        vstd::arithmetic::div_mod::lemma_div_pos_is_pos(k, cw as int);
                        vstd::arithmetic::div_mod::lemma_multiply_divide_lt(
                            k,
                            cw as int,
                            ch as int,
                        );
                        if px < cw && py < ch {
                            assert(!spec_in_rounded_rect(
                                x as int,
                                y as int,
                                fw as int,
                                fh as int,
                                radius as int,
                            ));
                        } else {
                            assert(k % (cw as int) != px || k / (cw as int) != py);
                        }
                    }
                }
            }
            x = x + 1;
        }
        y = y + 1;
    }
    proof {
        assert forall|k: int| 0 <= k < canvas.pixels@.len() implies canvas.pixels@[k]
            == spec_framed_pixel(
            orig[k],
            *frame,
            k % (cw as int),
            k / (cw as int),
            offset_x as int,
            offset_y as int,
            radius as int,
        ) by {
            assert(cw > 0) by (nonlinear_arith)
                requires
                    0 <= k < cw * ch,
                    0 <= cw,
            ;
            vstd::arithmetic::div_mod::lemma_fundamental_div_mod(k, cw as int);
            vstd::arithmetic::div_mod::lemma_mod_division_less_than_divisor(k, cw as int);
        }
    }
}

/// The horizontal or vertical offset that centres the frame within the
/// canvas.
pub open spec fn spec_frame_offset(canvas_extent: int, frame_extent: int) -> int {
    if canvas_extent >= frame_extent {
        (canvas_extent - frame_extent) / 2
    } else {
        0
    }
}

/// Composite the video frame onto the background: centre it, draw the
/// approximated drop shadow, then the frame itself under the rounded
/// mask.
pub fn composite_frame(background: &Raster, video_frame: &Raster, style: &FrameStyle) -> (r:
    Raster)
    requires
        background.wf(),
        video_frame.wf(),
        style_wf(*style),
        style.corner_radius == 0 || (2 * style.corner_radius <= video_frame.width && 2
            * style.corner_radius <= video_frame.height),
    ensures
        r.wf(),
        r.width == background.width,
        r.height == background.height,
        forall|k: int|
            0 <= k < r.pixels@.len() ==> r.pixels@[k] == spec_framed_pixel(
                spec_shadow_pixel(
                    background.pixels@[k],
                    k % (background.width as int) - spec_frame_offset(
                        background.width as int,
                        video_frame.width as int,
                    ) - style.shadow.offset_x,
                    k / (background.width as int) - spec_frame_offset(
                        background.height as int,
                        video_frame.height as int,
                    ) - style.shadow.offset_y,
                    video_frame.width as int,
                    video_frame.height as int,
                    style.shadow.blur as int,
                    spec_parse_hex_color(style.shadow.color@),
                    style.shadow.opacity * 255 / 1000,
                ),
                *video_frame,
                k % (background.width as int),
                k / (background.width as int),
                spec_frame_offset(background.width as int, video_frame.width as int),
                spec_frame_offset(background.height as int, video_frame.height as int),
                style.corner_radius as int,
            ),
{
    let mut canvas = background.duplicate();
    let frame_width = video_frame.width;
    let frame_height = video_frame.height;
    let offset_x: u32 = if canvas.width >= frame_width {
        (canvas.width - frame_width) / 2
    } else {
        0
    };
    let offset_y: u32 = if canvas.height >= frame_height {
        (canvas.height - frame_height) / 2
    } else {
        0
    };
    draw_shadow(&mut canvas, offset_x, offset_y, frame_width, frame_height, &style.shadow);
    draw_rounded_frame(&mut canvas, video_frame, offset_x, offset_y, style.corner_radius);
    canvas
}

/// A zero rounding radius includes every pixel in the mask.
pub proof fn lemma_zero_radius_includes_all(x: int, y: int, width: int, height: int)
    ensures
        spec_in_rounded_rect(x, y, width, height, 0),
{
}

/// For every positive rounding radius, the exact geometric corner pixel
/// of the rectangle lies outside the mask.
pub proof fn lemma_corner_pixel_excluded(width: int, height: int, radius: int)
    requires
        1 <= radius,
        2 * radius <= width,
        2 * radius <= height,
    ensures
        !spec_in_rounded_rect(0, 0, width, height, radius),
{
    assert(spec_corner_dist2(0, 0, radius, radius) == 2 * (radius * radius) && radius * radius
        >= 1) by (nonlinear_arith)
        requires
            radius >= 1,
    ;
}

} // verus!
