use ansi_image::color::TermColor;
use ansi_image::quantize::{ColorMapper, ColorMode};
use ansi_image::render::{
    image_to_ascii, is_transparent, two_pixels_to_ascii_char, PixelGrid, VerticalAlignment,
};
use ansi_image::style::{Glyph, GlyphSpan, Style};

fn span(glyph: Glyph, fg: Option<TermColor>, bg: Option<TermColor>) -> GlyphSpan {
    GlyphSpan { glyph, style: Style { foreground: fg, background: bg } }
}

fn newline() -> GlyphSpan {
    span(Glyph::Newline, None, None)
}

fn grid(width: u32, height: u32, pixels: &[(u8, u8, u8, u8)]) -> PixelGrid {
    let mut data = Vec::new();
    for p in pixels {
        data.extend_from_slice(&[p.0, p.1, p.2, p.3]);
    }
    PixelGrid::new(width, height, data).expect("buffer of the right size")
}

#[test]
fn transparency_is_alpha_zero() {
    assert!(is_transparent(&(255, 255, 255, 0)));
    assert!(!is_transparent(&(0, 0, 0, 1)));
}

#[test]
fn two_transparent_pixels_give_a_plain_space() {
    for mode in [ColorMode::TrueColor, ColorMode::Indexed256, ColorMode::Basic8] {
        let mapper = ColorMapper::new(mode);
        let r = two_pixels_to_ascii_char(&(9, 8, 7, 0), &(1, 2, 3, 0), &mapper);
        assert_eq!(r, span(Glyph::Space, None, None));
    }
}

#[test]
fn one_transparent_pixel_gives_a_half_block() {
    let mapper = ColorMapper::new(ColorMode::TrueColor);
    let upper_only = two_pixels_to_ascii_char(&(10, 20, 30, 255), &(0, 0, 0, 0), &mapper);
    assert_eq!(upper_only, span(Glyph::UpperHalf, Some(TermColor::Rgb(10, 20, 30)), None));
    let lower_only = two_pixels_to_ascii_char(&(0, 0, 0, 0), &(40, 50, 60, 7), &mapper);
    assert_eq!(lower_only, span(Glyph::LowerHalf, Some(TermColor::Rgb(40, 50, 60)), None));
    let indexed = ColorMapper::new(ColorMode::Indexed256);
    let r = two_pixels_to_ascii_char(&(0, 0, 0, 0), &(255, 0, 0, 255), &indexed);
    assert_eq!(r, span(Glyph::LowerHalf, Some(TermColor::Fixed(9)), None));
}

#[test]
fn two_opaque_pixels_give_lower_block_on_upper_background() {
    let mapper = ColorMapper::new(ColorMode::TrueColor);
    let r = two_pixels_to_ascii_char(&(1, 2, 3, 255), &(4, 5, 6, 255), &mapper);
    assert_eq!(
        r,
        span(Glyph::LowerHalf, Some(TermColor::Rgb(4, 5, 6)), Some(TermColor::Rgb(1, 2, 3)))
    );
    let indexed = ColorMapper::new(ColorMode::Indexed256);
    let r = two_pixels_to_ascii_char(&(0, 0, 255, 255), &(0, 0, 0, 255), &indexed);
    assert_eq!(r, span(Glyph::LowerHalf, Some(TermColor::Fixed(0)), Some(TermColor::Fixed(12))));
}

#[test]
fn red_over_transparent_pad_top_truecolor() {
    let image = grid(1, 2, &[(255, 0, 0, 255), (0, 0, 0, 0)]);
    let mapper = ColorMapper::new(ColorMode::TrueColor);
    let spans = image_to_ascii(&image, VerticalAlignment::PadTop, &mapper);
    assert_eq!(
        spans,
        vec![span(Glyph::UpperHalf, Some(TermColor::Rgb(255, 0, 0)), None), newline()]
    );
}

#[test]
fn single_pixel_pad_bottom_gets_transparent_row_above() {
    let image = grid(1, 1, &[(0, 128, 255, 255)]);
    let mapper = ColorMapper::new(ColorMode::TrueColor);
    let spans = image_to_ascii(&image, VerticalAlignment::PadBottom, &mapper);
    assert_eq!(
        spans,
        vec![span(Glyph::LowerHalf, Some(TermColor::Rgb(0, 128, 255)), None), newline()]
    );
}

#[test]
fn single_pixel_pad_top_gets_transparent_row_below() {
    let image = grid(1, 1, &[(0, 128, 255, 255)]);
    let mapper = ColorMapper::new(ColorMode::TrueColor);
    let spans = image_to_ascii(&image, VerticalAlignment::PadTop, &mapper);
    assert_eq!(
        spans,
        vec![span(Glyph::UpperHalf, Some(TermColor::Rgb(0, 128, 255)), None), newline()]
    );
}

#[test]
fn odd_height_alignment_decides_the_pairing() {
    // Rows: A, B, C (one column).
    let a = (10, 0, 0, 255);
    let b = (0, 20, 0, 255);
    let c = (0, 0, 30, 255);
    let image = grid(1, 3, &[a, b, c]);
    let mapper = ColorMapper::new(ColorMode::TrueColor);
    let top = image_to_ascii(&image, VerticalAlignment::PadTop, &mapper);
    assert_eq!(
        top,
        vec![
            span(Glyph::LowerHalf, Some(TermColor::Rgb(0, 20, 0)), Some(TermColor::Rgb(10, 0, 0))),
            newline(),
            span(Glyph::UpperHalf, Some(TermColor::Rgb(0, 0, 30)), None),
            newline(),
        ]
    );
    let bottom = image_to_ascii(&image, VerticalAlignment::PadBottom, &mapper);
    assert_eq!(
        bottom,
        vec![
            span(Glyph::LowerHalf, Some(TermColor::Rgb(10, 0, 0)), None),
            newline(),
            span(Glyph::LowerHalf, Some(TermColor::Rgb(0, 0, 30)), Some(TermColor::Rgb(0, 20, 0))),
            newline(),
        ]
    );
}

#[test]
fn rows_have_width_spans_and_a_line_end() {
    let t = (0, 0, 0, 0);
    let o = (200, 200, 200, 255);
    let image = grid(3, 4, &[o, t, o, t, t, o, o, o, o, t, t, t]);
    let mapper = ColorMapper::new(ColorMode::Basic8);
    let spans = image_to_ascii(&image, VerticalAlignment::PadTop, &mapper);
    assert_eq!(spans.len(), 2 * (3 + 1));
    assert_eq!(spans[3], newline());
    assert_eq!(spans[7], newline());
    assert_eq!(spans[0].glyph, Glyph::UpperHalf);
    assert_eq!(spans[0].style.background, None);
    assert_eq!(spans[1], span(Glyph::Space, None, None));
    assert_eq!(spans[2].glyph, Glyph::LowerHalf);
    assert!(spans[2].style.background.is_some());
    assert_eq!(spans[5].glyph, Glyph::UpperHalf);
    assert_eq!(image.width(), 3);
    assert_eq!(image.height(), 4);
    assert_eq!(image.get_pixel(2, 1), o);
}

#[test]
fn grid_rejects_a_buffer_of_the_wrong_size() {
    assert!(PixelGrid::new(2, 2, vec![0; 15]).is_none());
    assert!(PixelGrid::new(2, 2, vec![0; 17]).is_none());
    assert!(PixelGrid::new(2, 2, vec![0; 16]).is_some());
}
