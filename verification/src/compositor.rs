//! The frame compositor: derives the keyframes and canvas size once,
//! then renders any output frame by cropping and rescaling the source
//! per the current viewport and compositing it onto the styled
//! background.

use vstd::prelude::*;
use crate::background::{
    calculate_canvas_size, composite_frame, render_background, spec_background_pixel,
    spec_frame_offset, spec_masked_pixel, spec_shadow_pixel, style_wf,
};
use crate::color::{spec_parse_hex_color, Color};
use crate::effects::{FrameStyle, ZoomConfig};
use crate::events::{is_click, MouseEvent, RecordedEvents};
use crate::raster::Raster;
use crate::zoom::{
    compute_zoom_at_time, config_wf, event_wf, generate_zoom_keyframes, kf_wf, spec_keyframe,
    spec_viewport, FrameViewport, ZoomKeyframe,
};

verus! {

/// The RGBA bytes of a pixel sequence, four bytes per pixel in
/// channel order.
pub open spec fn spec_raster_bytes(pixels: Seq<Color>) -> Seq<u8> {
    Seq::new(
        (4 * pixels.len()) as nat,
        |i: int|
            {
                let p = pixels[i / 4];
                if i % 4 == 0 {
                    p.r
                } else if i % 4 == 1 {
                    p.g
                } else if i % 4 == 2 {
                    p.b
                } else {
                    p.a
                }
            },
    )
}

/// The pixel sequence written as RGBA bytes, four bytes per pixel.
pub open spec fn spec_bytes_colors(bytes: Seq<u8>) -> Seq<Color> {
    Seq::new(
        (bytes.len() / 4) as nat,
        |j: int|
            Color { r: bytes[4 * j], g: bytes[4 * j + 1], b: bytes[4 * j + 2], a: bytes[4 * j + 3] },
    )
}

/// What the Lanczos resampler returns for the given source bytes and
/// dimensions: a pure function of its arguments alone.
pub uninterp spec fn resampled(src: Seq<u8>, src_w: int, src_h: int, dst_w: int, dst_h: int) -> Seq<
    u8,
>;

/// Relies on image::imageops::resize with the Lanczos filter: the
/// output raster has the requested dimensions and its pixels are a pure
/// function of the source pixels and the two sizes.
#[verifier::external_body]
fn resize_rgba_bytes(bytes: Vec<u8>, src_w: u32, src_h: u32, dst_w: u32, dst_h: u32) -> (r: Vec<
    u8,
>)
    requires
        bytes@.len() == 4 * src_w * src_h,
        src_w > 0,
        src_h > 0,
        dst_w > 0,
        dst_h > 0,
        4 * dst_w * dst_h <= usize::MAX,
    ensures
        r@.len() == 4 * dst_w * dst_h,
        r@ == resampled(bytes@, src_w as int, src_h as int, dst_w as int, dst_h as int),
{
    let img: image::RgbaImage = image::RgbaImage::from_raw(src_w, src_h, bytes).unwrap();
    let out = image::imageops::resize(&img, dst_w, dst_h, image::imageops::FilterType::Lanczos3);
    out.into_raw()
}

proof fn lemma_four_of_product(a: int, b: int)
    ensures
        4 * (a * b) == 4 * a * b,
        (a * b) * 4 == 4 * a * b,
{
    assert(4 * (a * b) == 4 * a * b && (a * b) * 4 == 4 * a * b) by (nonlinear_arith);
}

/// Flatten pixels into RGBA bytes.
fn colors_to_bytes(pixels: &Vec<Color>) -> (r: Vec<u8>)
    requires
        4 * pixels@.len() <= usize::MAX,
    ensures
        r@ == spec_raster_bytes(pixels@),
{
    let mut r: Vec<u8> = Vec::new();
    let n = pixels.len();
    let mut i: usize = 0;
    while i < n
        invariant
            i <= n == pixels@.len(),
            4 * n <= usize::MAX,
            r@.len() == 4 * i,
            forall|j: int| 0 <= j < 4 * i ==> r@[j] == spec_raster_bytes(pixels@)[j],
        decreases n - i,
    {
        let p = pixels[i];
        r.push(p.r);
        r.push(p.g);
        r.push(p.b);
        r.push(p.a);
        proof {
            assert forall|j: int| 0 <= j < 4 * (i + 1) implies r@[j] == spec_raster_bytes(
                pixels@,
            )[j] by {
                vstd::arithmetic::div_mod::lemma_fundamental_div_mod(j, 4);
                vstd::arithmetic::div_mod::lemma_mod_division_less_than_divisor(j, 4);
            }
        }
        i = i + 1;
    }
    proof {
        assert(r@ =~= spec_raster_bytes(pixels@));
    }
    r
}

/// Group RGBA bytes back into pixels.
fn bytes_to_colors(bytes: &Vec<u8>) -> (r: Vec<Color>)
    ensures
        r@ == spec_bytes_colors(bytes@),
{
    let mut r: Vec<Color> = Vec::new();
    let total = bytes.len();
    let n = total / 4;
    proof {
        vstd::arithmetic::div_mod::lemma_fundamental_div_mod(bytes@.len() as int, 4);
        vstd::arithmetic::div_mod::lemma_mod_division_less_than_divisor(bytes@.len() as int, 4);
    }
    let mut j: usize = 0;
    let mut b: usize = 0;
    while j < n
        invariant
            total == bytes@.len(),
            j <= n == bytes@.len() as int / 4,
            4 * n <= bytes@.len(),
            b == 4 * j,
            r@.len() == j,
            forall|i: int| 0 <= i < j ==> r@[i] == spec_bytes_colors(bytes@)[i],
        decreases n - j,
    {
        proof {
            assert(b + 3 < total);
        }
        let c = Color { r: bytes[b], g: bytes[b + 1], b: bytes[b + 2], a: bytes[b + 3] };
        r.push(c);
        j = j + 1;
        b = b + 4;
    }
    proof {
        assert(r@ =~= spec_bytes_colors(bytes@));
    }
    r
}

/// The window of `source` with origin `(cx, cy)` and size `cw` by `ch`,
/// row-major.
pub open spec fn spec_window(source: Raster, cx: int, cy: int, cw: int, ch: int) -> Seq<Color> {
    Seq::new((cw * ch) as nat, |k: int| source.pixel(cx + k % cw, cy + k / cw))
}

/// A sequence of `n` fully transparent pixels.
pub open spec fn spec_zero_pixels(n: int) -> Seq<Color> {
    Seq::new(n as nat, |i: int| Color { r: 0, g: 0, b: 0, a: 0 })
}

/// Copy the window of `source` with origin `(cx, cy)` and size `cw` by
/// `ch` into a raster of its own.
fn crop_raster(source: &Raster, cx: u32, cy: u32, cw: u32, ch: u32) -> (r: Raster)
    requires
        source.wf(),
        cx + cw <= source.width,
        cy + ch <= source.height,
        cw * ch <= usize::MAX,
    ensures
        r.wf(),
        r.width == cw,
        r.height == ch,
        r.pixels@ == spec_window(*source, cx as int, cy as int, cw as int, ch as int),
{
    let mut pixels: Vec<Color> = Vec::new();
    let mut y: u32 = 0;
    while y < ch
        invariant
            source.wf(),
            cx + cw <= source.width,
            cy + ch <= source.height,
            cw * ch <= usize::MAX,
            y <= ch,
            pixels@.len() == y * cw,
            forall|k: int| 0 <= k < y * cw ==> pixels@[k] == spec_window(
                *source,
                cx as int,
                cy as int,
                cw as int,
                ch as int,
            )[k],
        decreases ch - y,
    {
        let mut x: u32 = 0;
        proof {
            assert(y * cw + cw <= ch * cw && (y + 1) * cw == y * cw + cw && ch * cw == cw * ch)
                by (nonlinear_arith)
                requires
                    0 <= y < ch,
                    0 <= cw,
            ;
        }
        while x < cw
            invariant
                source.wf(),
                cx + cw <= source.width,
                cy + ch <= source.height,
                cw * ch <= usize::MAX,
                y < ch,
                x <= cw,
                y * cw + cw <= cw * ch,
                pixels@.len() == y * cw + x,
                forall|k: int| 0 <= k < y * cw + x ==> pixels@[k] == spec_window(
                    *source,
                    cx as int,
                    cy as int,
                    cw as int,
                    ch as int,
                )[k],
            decreases cw - x,
        {
            let p = source.get_pixel(cx + x, cy + y);
            pixels.push(p);
            proof {
                let k0 = (y as int) * cw + x as int;
                vstd::arithmetic::div_mod::lemma_fundamental_div_mod_converse(
                    k0,
                    cw as int,
                    y as int,
                    x as int,
                );
                assert(spec_window(*source, cx as int, cy as int, cw as int, ch as int)[k0]
                    == source.pixel(cx + x, cy + y));
            }
            x = x + 1;
        }
        proof {
            assert((y + 1) * cw == y * cw + cw) by (nonlinear_arith);
        }
        y = y + 1;
    }
    proof {
        assert(pixels@ =~= spec_window(*source, cx as int, cy as int, cw as int, ch as int));
        assert(cw * ch == ch * cw) by (nonlinear_arith);
    }
    Raster { width: cw, height: ch, pixels }
}

/// The pixels of the zoomed frame: the source passed through (resampled
/// only if its size differs from the target) when the zoom is within a
/// hundredth of neutral, and otherwise the viewport window cropped out
/// of the source and resampled to the target size. Degenerate windows
/// and targets yield a fully transparent raster.
pub open spec fn spec_zoomed_pixels(
    source: Raster,
    v: FrameViewport,
    tw: u32,
    th: u32,
) -> Seq<Color> {
    if 990 < v.zoom < 1010 {
        if source.width == tw && source.height == th {
            source.pixels@
        } else if source.width == 0 || source.height == 0 || tw == 0 || th == 0 {
            spec_zero_pixels(tw * th)
        } else {
            spec_bytes_colors(
                resampled(
                    spec_raster_bytes(source.pixels@),
                    source.width as int,
                    source.height as int,
                    tw as int,
                    th as int,
                ),
            )
        }
    } else {
        let cx = v.x as int / 1000;
        let cy = v.y as int / 1000;
        let cw0 = v.width as int / 1000;
        let ch0 = v.height as int / 1000;
        let cw = if cw0 <= source.width - cx {
            cw0
        } else {
            source.width - cx
        };
        let ch = if ch0 <= source.height - cy {
            ch0
        } else {
            source.height - cy
        };
        if cw <= 0 || ch <= 0 || tw == 0 || th == 0 {
            spec_zero_pixels(tw * th)
        } else {
            spec_bytes_colors(
                resampled(
                    spec_raster_bytes(spec_window(source, cx, cy, cw, ch)),
                    cw,
                    ch,
                    tw as int,
                    th as int,
                ),
            )
        }
    }
}

/// Crop the viewport window out of the source and rescale it to the
/// target size; a near-neutral zoom passes the source through.
pub fn apply_zoom_crop(
    source: &Raster,
    viewport: &FrameViewport,
    target_width: u32,
    target_height: u32,
) -> (r: Raster)
    requires
        source.wf(),
        viewport.x + viewport.width <= source.width * 1000,
        viewport.y + viewport.height <= source.height * 1000,
        target_width * target_height <= usize::MAX,
        4 * (target_width * target_height) <= usize::MAX,
        4 * (source.width * source.height) <= usize::MAX,
    ensures
        r.wf(),
        r.width == target_width,
        r.height == target_height,
        r.pixels@ == spec_zoomed_pixels(*source, *viewport, target_width, target_height),
{
    let z = viewport.zoom;
    if z > 990 && z < 1010 {
        if source.width == target_width && source.height == target_height {
            return source.duplicate();
        }
        if source.width == 0 || source.height == 0 || target_width == 0 || target_height == 0 {
            let r = Raster::new(target_width, target_height);
            proof {
                assert(r.pixels@ =~= spec_zero_pixels(target_width * target_height));
            }
            return r;
        }
        proof {
            lemma_four_of_product(source.width as int, source.height as int);
            lemma_four_of_product(target_width as int, target_height as int);
        }
        let bytes = colors_to_bytes(&source.pixels);
        let out = resize_rgba_bytes(
            bytes,
            source.width,
            source.height,
            target_width,
            target_height,
        );
        let pixels = bytes_to_colors(&out);
        proof {
            vstd::arithmetic::div_mod::lemma_div_by_multiple(
                (target_width as int) * (target_height as int),
                4,
            );
        }
        return Raster { width: target_width, height: target_height, pixels };
    }
    let crop_x: u32 = (viewport.x / 1000) as u32;
    let crop_y: u32 = (viewport.y / 1000) as u32;
    proof {
        vstd::arithmetic::div_mod::lemma_div_is_ordered(
            viewport.x as int,
            source.width * 1000,
            1000,
        );
        vstd::arithmetic::div_mod::lemma_div_is_ordered(
            viewport.y as int,
            source.height * 1000,
            1000,
        );
        vstd::arithmetic::div_mod::lemma_div_by_multiple(source.width as int, 1000);
        vstd::arithmetic::div_mod::lemma_div_by_multiple(source.height as int, 1000);
        vstd::arithmetic::div_mod::lemma_div_pos_is_pos(viewport.x as int, 1000);
        vstd::arithmetic::div_mod::lemma_div_pos_is_pos(viewport.y as int, 1000);
        vstd::arithmetic::div_mod::lemma_div_is_ordered(
            viewport.width as int,
            source.width * 1000,
            1000,
        );
        vstd::arithmetic::div_mod::lemma_div_is_ordered(
            viewport.height as int,
            source.height * 1000,
            1000,
        );
        vstd::arithmetic::div_mod::lemma_div_pos_is_pos(viewport.width as int, 1000);
        vstd::arithmetic::div_mod::lemma_div_pos_is_pos(viewport.height as int, 1000);
    }
    let avail_w: u32 = source.width - crop_x;
    let avail_h: u32 = source.height - crop_y;
    let vw: u64 = viewport.width / 1000;
    let vh: u64 = viewport.height / 1000;
    let crop_w: u32 = if vw < avail_w as u64 {
        vw as u32
    } else {
        avail_w
    };
    let crop_h: u32 = if vh < avail_h as u64 {
        vh as u32
    } else {
        avail_h
    };
    if crop_w == 0 || crop_h == 0 || target_width == 0 || target_height == 0 {
        let r = Raster::new(target_width, target_height);
        proof {
            assert(r.pixels@ =~= spec_zero_pixels(target_width * target_height));
        }
        return r;
    }
    proof {
        assert(crop_w * crop_h <= source.width * source.height) by (nonlinear_arith)
            requires
                0 <= crop_w <= source.width,
                0 <= crop_h <= source.height,
        ;
        assert(4 * ((crop_w * crop_h) as int) <= 4 * (source.width * source.height));
    }
    let cropped = crop_raster(source, crop_x, crop_y, crop_w, crop_h);
    proof {
        lemma_four_of_product(crop_w as int, crop_h as int);
        lemma_four_of_product(source.width as int, source.height as int);
        lemma_four_of_product(target_width as int, target_height as int);
    }
    let bytes = colors_to_bytes(&cropped.pixels);
    let out = resize_rgba_bytes(bytes, crop_w, crop_h, target_width, target_height);
    let pixels = bytes_to_colors(&out);
    proof {
        vstd::arithmetic::div_mod::lemma_div_by_multiple(
            (target_width as int) * (target_height as int),
            4,
        );
    }
    Raster { width: target_width, height: target_height, pixels }
}

/// The compositor of one project: style, keyframes and sizes fixed
/// once, each output frame a pure function of the source raster and the
/// timestamp.
pub struct Compositor {
    pub frame_style: FrameStyle,
    pub zoom_keyframes: Vec<ZoomKeyframe>,
    pub source_width: u32,
    pub source_height: u32,
    pub output_width: u32,
    pub output_height: u32,
}

impl Compositor {
    /// The compositor's standing assumptions: the output canvas is the
    /// padded source, every keyframe is within machine bounds, the
    /// style is within machine bounds, the rounding corners fit the
    /// frame, and the pixel counts fit an allocation.
    pub open spec fn wf(self) -> bool {
        &&& style_wf(self.frame_style)
        &&& self.output_width == self.source_width + 2 * self.frame_style.padding
        &&& self.output_height == self.source_height + 2 * self.frame_style.padding
        &&& forall|i: int|
            0 <= i < self.zoom_keyframes@.len() ==> kf_wf(#[trigger] self.zoom_keyframes@[i])
        &&& self.frame_style.corner_radius == 0 || (2 * self.frame_style.corner_radius
            <= self.source_width && 2 * self.frame_style.corner_radius <= self.source_height)
        &&& 4 * (self.source_width * self.source_height) <= usize::MAX
        &&& self.output_width * self.output_height <= usize::MAX
    }

    /// Derive the keyframes from the click events and fix the canvas
    /// size.
    pub fn new(
        frame_style: FrameStyle,
        zoom_config: &ZoomConfig,
        events: &RecordedEvents,
        source_width: u32,
        source_height: u32,
    ) -> (r: Compositor)
        requires
            style_wf(frame_style),
            source_width + 2 * frame_style.padding <= u32::MAX,
            source_height + 2 * frame_style.padding <= u32::MAX,
            frame_style.corner_radius == 0 || (2 * frame_style.corner_radius <= source_width && 2
                * frame_style.corner_radius <= source_height),
            4 * (source_width * source_height) <= usize::MAX,
            (source_width + 2 * frame_style.padding) * (source_height + 2 * frame_style.padding)
                <= usize::MAX,
            zoom_config.enabled ==> config_wf(*zoom_config),
            forall|i: int|
                0 <= i < events.mouse_events@.len() ==> event_wf(
                    #[trigger] events.mouse_events@[i],
                ),
        ensures
            r.wf(),
            r.frame_style == frame_style,
            r.source_width == source_width,
            r.source_height == source_height,
            r.output_width == source_width + 2 * frame_style.padding,
            r.output_height == source_height + 2 * frame_style.padding,
            !zoom_config.enabled ==> r.zoom_keyframes@.len() == 0,
            zoom_config.enabled ==> ({
                let clicks = events.mouse_events@.filter(|e: MouseEvent| is_click(e));
                r.zoom_keyframes@.len() == clicks.len() && forall|i: int|
                    0 <= i < clicks.len() ==> r.zoom_keyframes@[i] == spec_keyframe(
                        clicks[i],
                        *zoom_config,
                    )
            }),
    {
        let click_events = events.click_events();
        let zoom_keyframes = generate_zoom_keyframes(&click_events, zoom_config);
        let (output_width, output_height) = calculate_canvas_size(
            source_width,
            source_height,
            &frame_style,
        );
        Compositor {
            frame_style,
            zoom_keyframes,
            source_width,
            source_height,
            output_width,
            output_height,
        }
    }

    /// The crop viewport of the frame at `time_ms`.
    pub fn get_viewport(&self, time_ms: u64) -> (v: FrameViewport)
        requires
            self.wf(),
        ensures
            v == spec_viewport(
                self.zoom_keyframes@,
                time_ms,
                self.source_width,
                self.source_height,
            ),
            v.x + v.width <= self.source_width * 1000,
            v.y + v.height <= self.source_height * 1000,
    {
        compute_zoom_at_time(time_ms, &self.zoom_keyframes, self.source_width, self.source_height)
    }

    /// Compose the frame at `time_ms`: crop and rescale the source per
    /// the viewport, render the styled background, and composite the
    /// frame onto it with shadow and rounded mask.
    pub fn compose_frame(&self, source_frame: &Raster, time_ms: u64) -> (r: Raster)
        requires
            self.wf(),
            source_frame.wf(),
            source_frame.width == self.source_width,
            source_frame.height == self.source_height,
        ensures
            r.wf(),
            r.width == self.output_width,
            r.height == self.output_height,
            forall|k: int|
                0 <= k < r.pixels@.len() ==> r.pixels@[k] == ({
                    let ow = self.output_width as int;
                    let ox = spec_frame_offset(ow, self.source_width as int);
                    let oy = spec_frame_offset(
                        self.output_height as int,
                        self.source_height as int,
                    );
                    spec_masked_pixel(
                        spec_shadow_pixel(
                            spec_background_pixel(
                                self.frame_style,
                                ow,
                                self.output_height as int,
                                k,
                            ),
                            k % ow - ox - self.frame_style.shadow.offset_x,
                            k / ow - oy - self.frame_style.shadow.offset_y,
                            self.source_width as int,
                            self.source_height as int,
                            self.frame_style.shadow.blur as int,
                            spec_parse_hex_color(self.frame_style.shadow.color@),
                            self.frame_style.shadow.opacity * 255 / 1000,
                        ),
                        spec_zoomed_pixels(
                            *source_frame,
                            spec_viewport(
                                self.zoom_keyframes@,
                                time_ms,
                                self.source_width,
                                self.source_height,
                            ),
                            self.source_width,
                            self.source_height,
                        ),
                        self.source_width as int,
                        self.source_height as int,
                        k % ow,
                        k / ow,
                        ox,
                        oy,
                        self.frame_style.corner_radius as int,
                    )
                }),
    {
        let viewport = self.get_viewport(time_ms);
        proof {
            assert(self.source_width * self.source_height <= 4 * (self.source_width
                * self.source_height));
            assert(4 * ((self.source_width * self.source_height) as int) == 4 * (
            self.source_width as int) * (self.source_height as int)) by (nonlinear_arith);
        }
        let zoomed_frame = apply_zoom_crop(
            source_frame,
            &viewport,
            self.source_width,
            self.source_height,
        );
        let bg = render_background(self.output_width, self.output_height, &self.frame_style);
        composite_frame(&bg, &zoomed_frame, &self.frame_style)
    }
}

} // verus!
