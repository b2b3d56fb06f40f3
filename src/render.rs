//! Turning a grid of RGBA pixels into glyph spans, two pixel rows per line
//! of text.
use vstd::prelude::*;
use crate::color::Rgb;
use crate::quantize::{quantize, ColorMapper, ColorMode};
use crate::style::{Glyph, GlyphSpan, Style};

verus! {

/// Red, green, blue and alpha channels of one pixel.
pub type Pixel = (u8, u8, u8, u8);

/// Where the padding row goes when the image has an odd number of rows.
#[derive(Clone, Copy, Debug, PartialEq, Eq, Structural)]
pub enum VerticalAlignment {
    /// The last real row is paired with a transparent row below it.
    PadTop,
    /// A transparent row is paired with the first real row, above it.
    PadBottom,
}

/// A pixel is transparent when its alpha channel is 0.
pub open spec fn transparent(p: Pixel) -> bool {
    p.3 == 0
}

pub open spec fn pixel_rgb(p: Pixel) -> Rgb {
    (p.0, p.1, p.2)
}

/// The span for an upper and a lower pixel: nothing for two transparent
/// pixels, a half block in the colour of the one opaque pixel, or a lower
/// half block coloured by the lower pixel on a background of the upper one.
pub open spec fn pair_span(upper: Pixel, lower: Pixel, mode: ColorMode) -> GlyphSpan {
    if transparent(upper) && transparent(lower) {
        GlyphSpan { glyph: Glyph::Space, style: Style { foreground: None, background: None } }
    } else if transparent(upper) {
        GlyphSpan {
            glyph: Glyph::LowerHalf,
            style: Style { foreground: Some(quantize(mode, pixel_rgb(lower))), background: None },
        }
    } else if transparent(lower) {
        GlyphSpan {
            glyph: Glyph::UpperHalf,
            style: Style { foreground: Some(quantize(mode, pixel_rgb(upper))), background: None },
        }
    } else {
        GlyphSpan {
            glyph: Glyph::LowerHalf,
            style: Style {
                foreground: Some(quantize(mode, pixel_rgb(lower))),
                background: Some(quantize(mode, pixel_rgb(upper))),
            },
        }
    }
}

/// The unstyled line end.
pub open spec fn newline_span() -> GlyphSpan {
    GlyphSpan { glyph: Glyph::Newline, style: Style { foreground: None, background: None } }
}

/// Whether a pixel is transparent.
pub fn is_transparent(pixel: &Pixel) -> (r: bool)
    ensures
        r == transparent(*pixel),
{
    pixel.3 == 0
}

/// The span showing `upper_pixel` above `lower_pixel` in one cell.
pub fn two_pixels_to_ascii_char(upper_pixel: &Pixel, lower_pixel: &Pixel, mapper: &ColorMapper) -> (r:
    GlyphSpan)
    requires
        mapper.wf(),
    ensures
        r == pair_span(*upper_pixel, *lower_pixel, mapper.mode_of()),
        transparent(*upper_pixel) && transparent(*lower_pixel) ==> r.glyph == Glyph::Space
            && r.style.foreground is None && r.style.background is None,
        transparent(*upper_pixel) && !transparent(*lower_pixel) ==> r.glyph == Glyph::LowerHalf
            && r.style.foreground == Some(quantize(mapper.mode_of(), pixel_rgb(*lower_pixel)))
            && r.style.background is None,
        !transparent(*upper_pixel) && transparent(*lower_pixel) ==> r.glyph == Glyph::UpperHalf
            && r.style.foreground == Some(quantize(mapper.mode_of(), pixel_rgb(*upper_pixel)))
            && r.style.background is None,
        !transparent(*upper_pixel) && !transparent(*lower_pixel) ==> r.glyph == Glyph::LowerHalf
            && r.style.foreground == Some(quantize(mapper.mode_of(), pixel_rgb(*lower_pixel)))
            && r.style.background == Some(quantize(mapper.mode_of(), pixel_rgb(*upper_pixel))),
{
    let upper_clear = is_transparent(upper_pixel);
    let lower_clear = is_transparent(lower_pixel);
    if upper_clear && lower_clear {
        return GlyphSpan {
            glyph: Glyph::Space,
            style: Style { foreground: None, background: None },
        };
    }
    if upper_clear {
        let fg = mapper.map_color((lower_pixel.0, lower_pixel.1, lower_pixel.2));
        return GlyphSpan {
            glyph: Glyph::LowerHalf,
            style: Style { foreground: Some(fg), background: None },
        };
    }
    if lower_clear {
        let fg = mapper.map_color((upper_pixel.0, upper_pixel.1, upper_pixel.2));
        return GlyphSpan {
            glyph: Glyph::UpperHalf,
            style: Style { foreground: Some(fg), background: None },
        };
    }
    let fg = mapper.map_color((lower_pixel.0, lower_pixel.1, lower_pixel.2));
    let bg = mapper.map_color((upper_pixel.0, upper_pixel.1, upper_pixel.2));
    GlyphSpan { glyph: Glyph::LowerHalf, style: Style { foreground: Some(fg), background: Some(bg) } }
}

/// A grid of RGBA pixels, `width` by `height`, stored row by row with four
/// bytes per pixel.
pub struct PixelGrid {
    width: u32,
    height: u32,
    data: Vec<u8>,
}

impl PixelGrid {
    pub closed spec fn spec_width(&self) -> nat {
        self.width as nat
    }

    pub closed spec fn spec_height(&self) -> nat {
        self.height as nat
    }

    pub closed spec fn spec_data(&self) -> Seq<u8> {
        self.data@
    }

    /// The buffer holds four bytes for each pixel.
    pub open spec fn wf(&self) -> bool {
        self.spec_data().len() == 4 * self.spec_width() * self.spec_height()
    }

    /// A grid over `data`, or `None` when `data` is not four bytes for each
    /// of the `width * height` pixels.
    pub fn new(width: u32, height: u32, data: Vec<u8>) -> (r: Option<PixelGrid>)
        ensures
            r is Some <==> data@.len() == 4 * width * height,
            r matches Some(g) ==> g.wf() && g.spec_width() == width && g.spec_height() == height
                && g.spec_data() == data@,
    {
        let w: u128 = width as u128;
        let h: u128 = height as u128;
        assert(w * h <= 0xffff_ffff_ffff_ffff_ffff_ffff) by (nonlinear_arith)
            requires
                w <= 0xffff_ffff,
                h <= 0xffff_ffff,
        ;
        let need: u128 = 4 * (w * h);
        assert(need == 4 * width * height) by (nonlinear_arith)
            requires
                need == 4 * (w * h),
                w == width,
                h == height,
        ;
        if data.len() as u128 == need {
            Some(PixelGrid { width, height, data })
        } else {
            None
        }
    }

    pub fn width(&self) -> (r: u32)
        ensures
            r == self.spec_width(),
    {
        self.width
    }

    pub fn height(&self) -> (r: u32)
        ensures
            r == self.spec_height(),
    {
        self.height
    }

    /// The pixel in column `x` of row `y`.
    pub fn get_pixel(&self, x: u32, y: u32) -> (p: Pixel)
        requires
            self.wf(),
            x < self.spec_width(),
            y < self.spec_height(),
        ensures
            p == grid_pixel(*self, x as int, y as int),
    {
        let w = self.width as usize;
        let h = self.height as usize;
        let xs = x as usize;
        let ys = y as usize;
        assert(self.data@.len() == 4 * w * h);
        let len = self.data.len();
        assert(len == self.data@.len());
        assert(ys * w + xs < w * h && 4 * (ys * w + xs) + 3 < 4 * w * h && ys * w <= ys * w + xs)
            by (nonlinear_arith)
            requires
                xs < w,
                ys < h,
        ;
        let i: usize = 4 * (ys * w + xs);
        (self.data[i], self.data[i + 1], self.data[i + 2], self.data[i + 3])
    }

    /// The pixel in column `x` of virtual row `v` of the grid padded to an
    /// even number of rows.
    fn virtual_pixel(&self, alignment: VerticalAlignment, x: u32, v: u32) -> (p: Pixel)
        requires
            self.wf(),
            x < self.spec_width(),
            v < 2 * row_count(self.spec_height()),
        ensures
            p == virtual_pixel(*self, alignment, x as int, v as int),
    {
        let odd = self.height % 2 == 1;
        if odd && alignment == VerticalAlignment::PadBottom {
            if v == 0 {
                (0, 0, 0, 0)
            } else {
                self.get_pixel(x, v - 1)
            }
        } else if odd && alignment == VerticalAlignment::PadTop && v == self.height {
            (0, 0, 0, 0)
        } else {
            self.get_pixel(x, v)
        }
    }
}

/// The pixel in column `x` of row `y`.
pub open spec fn grid_pixel(g: PixelGrid, x: int, y: int) -> Pixel {
    let i = 4 * (y * g.spec_width() + x);
    (g.spec_data()[i], g.spec_data()[i + 1], g.spec_data()[i + 2], g.spec_data()[i + 3])
}

/// Number of text lines for `height` pixel rows.
pub open spec fn row_count(height: nat) -> nat {
    (height + 1) / 2
}

/// The real row shown at virtual row `v`, or `None` for the transparent
/// padding row that an odd height adds: first with `PadBottom`, last with
/// `PadTop`.
pub open spec fn source_row(height: nat, alignment: VerticalAlignment, v: int) -> Option<int> {
    if height % 2 == 1 && alignment == VerticalAlignment::PadBottom {
        if v == 0 {
            None
        } else {
            Some(v - 1)
        }
    } else if height % 2 == 1 && alignment == VerticalAlignment::PadTop && v == height {
        None
    } else {
        Some(v)
    }
}

pub open spec fn virtual_pixel(g: PixelGrid, alignment: VerticalAlignment, x: int, v: int) -> Pixel {
    match source_row(g.spec_height(), alignment, v) {
        Some(y) => grid_pixel(g, x, y),
        None => (0, 0, 0, 0),
    }
}

/// The glyph spans of line `k`: one per column, then the line end.
pub open spec fn row_spans(g: PixelGrid, alignment: VerticalAlignment, mode: ColorMode, k: int) -> Seq<
    GlyphSpan,
> {
    Seq::new(
        g.spec_width(),
        |x: int|
            pair_span(
                virtual_pixel(g, alignment, x, 2 * k),
                virtual_pixel(g, alignment, x, 2 * k + 1),
                mode,
            ),
    ).push(newline_span())
}

/// The lines of the picture, top to bottom.
pub open spec fn image_rows(g: PixelGrid, alignment: VerticalAlignment, mode: ColorMode) -> Seq<
    Seq<GlyphSpan>,
> {
    Seq::new(row_count(g.spec_height()), |k: int| row_spans(g, alignment, mode, k))
}

/// All glyph spans of the picture, line after line.
pub open spec fn image_spans(g: PixelGrid, alignment: VerticalAlignment, mode: ColorMode) -> Seq<
    GlyphSpan,
> {
    image_rows(g, alignment, mode).flatten()
}

/// The glyph spans of `image`: pixel rows taken two at a time, top to
/// bottom, each pair of rows giving one span per column and a line end.
pub fn image_to_ascii(image: &PixelGrid, vertical_gravity: VerticalAlignment, mapper: &ColorMapper) -> (r:
    Vec<GlyphSpan>)
    requires
        image.wf(),
        mapper.wf(),
    ensures
        r@ == image_spans(*image, vertical_gravity, mapper.mode_of()),
{
    let width = image.width();
    let height = image.height();
    let rows: u32 = height / 2 + height % 2;
    let ghost all = image_rows(*image, vertical_gravity, mapper.mode_of());
    let mut out: Vec<GlyphSpan> = Vec::new();
    let mut k: u32 = 0;
    assert(all.take(0) =~= Seq::<Seq<GlyphSpan>>::empty());
    while k < rows
        invariant
            image.wf(),
            mapper.wf(),
            width == image.spec_width(),
            height == image.spec_height(),
            rows == row_count(height as nat),
            all == image_rows(*image, vertical_gravity, mapper.mode_of()),
            k <= rows,
            out@ == all.take(k as int).flatten(),
        decreases rows - k,
    {
        let ghost row = row_spans(*image, vertical_gravity, mapper.mode_of(), k as int);
        let ghost before = out@;
        let mut x: u32 = 0;
        while x < width
            invariant
                image.wf(),
                mapper.wf(),
                width == image.spec_width(),
                height == image.spec_height(),
                rows == row_count(height as nat),
                k < rows,
                x <= width,
                row == row_spans(*image, vertical_gravity, mapper.mode_of(), k as int),
                out@ == before + row.take(x as int),
            decreases width - x,
        {
            let upper = image.virtual_pixel(vertical_gravity, x, 2 * k);
            let lower = image.virtual_pixel(vertical_gravity, x, 2 * k + 1);
            let span = two_pixels_to_ascii_char(&upper, &lower, mapper);
            out.push(span);
            x = x + 1;
            assert(out@ =~= before + row.take(x as int));
        }
        out.push(GlyphSpan { glyph: Glyph::Newline, style: Style { foreground: None, background: None } });
        proof {
            assert(out@ =~= before + row);
            assert(all.take(k as int + 1) =~= all.take(k as int).push(all[k as int]));
            all.take(k as int).lemma_flatten_push(all[k as int]);
        }
        k = k + 1;
    }
    assert(all.take(rows as int) =~= all);
    out
}

} // verus!
