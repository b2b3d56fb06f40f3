use ansi_image::color::{BasicColor, TermColor};
use ansi_image::quantize::{ColorMapper, ColorMode};
use ansi_image::render::{image_to_ascii, PixelGrid, VerticalAlignment};
use ansi_image::style::{Glyph, GlyphSpan, Style};
use ansi_image::write_with_minimal_control_sequences;
use ansi_term::Colour;

fn span(glyph: Glyph, fg: Option<TermColor>, bg: Option<TermColor>) -> GlyphSpan {
    GlyphSpan { glyph, style: Style { foreground: fg, background: bg } }
}

fn glyph_str(g: Glyph) -> &'static str {
    match g {
        Glyph::Space => " ",
        Glyph::UpperHalf => "\u{2580}",
        Glyph::LowerHalf => "\u{2584}",
        Glyph::Newline => "\n",
    }
}

fn colour(c: TermColor) -> Colour {
    match c {
        TermColor::Basic(BasicColor::Black) => Colour::Black,
        TermColor::Basic(BasicColor::Red) => Colour::Red,
        TermColor::Basic(BasicColor::Green) => Colour::Green,
        TermColor::Basic(BasicColor::Yellow) => Colour::Yellow,
        TermColor::Basic(BasicColor::Blue) => Colour::Blue,
        TermColor::Basic(BasicColor::Magenta) => Colour::Purple,
        TermColor::Basic(BasicColor::Cyan) => Colour::Cyan,
        TermColor::Basic(BasicColor::White) => Colour::White,
        TermColor::Fixed(n) => Colour::Fixed(n),
        TermColor::Rgb(r, g, b) => Colour::RGB(r, g, b),
    }
}

fn ansi_style(s: Style) -> ansi_term::Style {
    let mut st = ansi_term::Style::new();
    if let Some(f) = s.foreground {
        st = st.fg(colour(f));
    }
    if let Some(b) = s.background {
        st = st.on(colour(b));
    }
    st
}

/// The same spans written with ansi_term's own prefix, infix and suffix.
fn with_ansi_term(spans: &[GlyphSpan]) -> String {
    let mut out = String::new();
    if spans.is_empty() {
        return out;
    }
    let mut prev = ansi_style(spans[0].style);
    out.push_str(&prev.prefix().to_string());
    for s in spans {
        let next = ansi_style(s.style);
        out.push_str(&prev.infix(next).to_string());
        out.push_str(glyph_str(s.glyph));
        prev = next;
    }
    out.push_str(&prev.suffix().to_string());
    out
}

/// Each span painted on its own: its codes, its glyph, then a reset.
fn naive(spans: &[GlyphSpan]) -> String {
    spans.iter().map(|s| ansi_style(s.style).paint(glyph_str(s.glyph)).to_string()).collect()
}

#[derive(Clone, Copy, Debug, PartialEq)]
enum Code {
    Basic(u8),
    Fixed(u8),
    Rgb(u8, u8, u8),
}

/// Replays SGR sequences as a terminal does and lists each drawn character
/// with its foreground and background.
fn replay(text: &str) -> (Vec<(char, Option<Code>, Option<Code>)>, (Option<Code>, Option<Code>)) {
    let chars: Vec<char> = text.chars().collect();
    let mut fg = None;
    let mut bg = None;
    let mut drawn = Vec::new();
    let mut i = 0;
    while i < chars.len() {
        if chars[i] == '\u{1b}' {
            assert_eq!(chars[i + 1], '[');
            let mut j = i + 2;
            let mut params = String::new();
            while chars[j] != 'm' {
                params.push(chars[j]);
                j += 1;
            }
            let nums: Vec<u32> = params.split(';').map(|p| p.parse().unwrap()).collect();
            let mut k = 0;
            while k < nums.len() {
                let n = nums[k];
                match n {
                    0 => {
                        fg = None;
                        bg = None;
                        k += 1;
                    }
                    30..=37 => {
                        fg = Some(Code::Basic((n - 30) as u8));
                        k += 1;
                    }
                    40..=47 => {
                        bg = Some(Code::Basic((n - 40) as u8));
                        k += 1;
                    }
                    38 | 48 => {
                        let c = if nums[k + 1] == 5 {
                            k += 3;
                            Code::Fixed(nums[k - 1] as u8)
                        } else {
                            k += 5;
                            Code::Rgb(nums[k - 3] as u8, nums[k - 2] as u8, nums[k - 1] as u8)
                        };
                        if n == 38 {
                            fg = Some(c);
                        } else {
                            bg = Some(c);
                        }
                    }
                    _ => panic!("unexpected code {}", n),
                }
            }
            i = j + 1;
        } else {
            drawn.push((chars[i], fg, bg));
            i += 1;
        }
    }
    (drawn, (fg, bg))
}

fn samples() -> Vec<Vec<GlyphSpan>> {
    let red = Some(TermColor::Rgb(255, 0, 0));
    let blue = Some(TermColor::Fixed(12));
    let green = Some(TermColor::Basic(BasicColor::Green));
    let nl = span(Glyph::Newline, None, None);
    let mut image_spans = Vec::new();
    let t = (0, 0, 0, 0);
    let pixels = [
        (255, 0, 0, 255), t, (0, 0, 255, 255), (0, 0, 255, 255),
        (255, 0, 0, 255), (0, 255, 0, 255), t, (0, 0, 255, 255),
        t, t, (9, 9, 9, 255), (200, 100, 50, 255),
    ];
    let mut data = Vec::new();
    for p in pixels {
        data.extend_from_slice(&[p.0, p.1, p.2, p.3]);
    }
    let image = PixelGrid::new(4, 3, data).unwrap();
    for mode in [ColorMode::TrueColor, ColorMode::Indexed256, ColorMode::Basic8] {
        for align in [VerticalAlignment::PadTop, VerticalAlignment::PadBottom] {
            image_spans.push(image_to_ascii(&image, align, &ColorMapper::new(mode)));
        }
    }
    let mut all = vec![
        vec![],
        vec![nl],
        vec![span(Glyph::Space, None, None)],
        vec![span(Glyph::UpperHalf, red, None)],
        vec![span(Glyph::UpperHalf, red, None), span(Glyph::UpperHalf, red, None), nl],
        vec![
            span(Glyph::LowerHalf, red, blue),
            span(Glyph::LowerHalf, red, None),
            span(Glyph::LowerHalf, green, blue),
            span(Glyph::LowerHalf, None, blue),
            span(Glyph::Space, None, None),
            span(Glyph::LowerHalf, blue, green),
            nl,
            span(Glyph::UpperHalf, green, None),
        ],
    ];
    all.extend(image_spans);
    all
}

#[test]
fn empty_input_writes_nothing() {
    assert_eq!(write_with_minimal_control_sequences(&vec![]), "");
}

#[test]
fn single_span_exact_text() {
    let spans = vec![
        span(Glyph::UpperHalf, Some(TermColor::Rgb(255, 0, 0)), None),
        span(Glyph::Newline, None, None),
    ];
    assert_eq!(write_with_minimal_control_sequences(&spans), "\u{1b}[38;2;255;0;0m\u{2580}\u{1b}[0m\n");
    let both = vec![span(
        Glyph::LowerHalf,
        Some(TermColor::Fixed(7)),
        Some(TermColor::Basic(BasicColor::Cyan)),
    )];
    assert_eq!(write_with_minimal_control_sequences(&both), "\u{1b}[46;38;5;7m\u{2584}\u{1b}[0m");
}

#[test]
fn unchanged_style_is_not_written_again() {
    let c = Some(TermColor::Fixed(200));
    let spans = vec![span(Glyph::UpperHalf, c, None); 3];
    assert_eq!(
        write_with_minimal_control_sequences(&spans),
        "\u{1b}[38;5;200m\u{2580}\u{2580}\u{2580}\u{1b}[0m"
    );
}

#[test]
fn only_the_changed_colour_is_written() {
    let spans = vec![
        span(Glyph::LowerHalf, Some(TermColor::Fixed(1)), Some(TermColor::Fixed(2))),
        span(Glyph::LowerHalf, Some(TermColor::Fixed(3)), Some(TermColor::Fixed(2))),
        span(Glyph::LowerHalf, Some(TermColor::Fixed(3)), None),
    ];
    assert_eq!(
        write_with_minimal_control_sequences(&spans),
        "\u{1b}[48;5;2;38;5;1m\u{2584}\u{1b}[38;5;3m\u{2584}\u{1b}[0m\u{1b}[38;5;3m\u{2584}\u{1b}[0m"
    );
}

#[test]
fn output_matches_ansi_term() {
    for spans in samples() {
        assert_eq!(write_with_minimal_control_sequences(&spans), with_ansi_term(&spans));
    }
}

#[test]
fn minimal_is_no_longer_than_naive_and_draws_the_same() {
    for spans in samples() {
        let minimal = write_with_minimal_control_sequences(&spans);
        let plain = naive(&spans);
        assert!(minimal.chars().count() <= plain.chars().count());
        let (drawn_min, end_min) = replay(&minimal);
        let (drawn_naive, end_naive) = replay(&plain);
        assert_eq!(drawn_min, drawn_naive);
        assert_eq!(end_min, (None, None));
        assert_eq!(end_naive, (None, None));
        assert_eq!(drawn_min.len(), spans.len());
    }
}
