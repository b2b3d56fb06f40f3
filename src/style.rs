//! Glyphs, styles, the SGR escape sequences that switch between styles, and
//! a model of how a terminal replays them.
use vstd::prelude::*;
use crate::color::{basic_index, TermColor};

verus! {

/// What one output cell (or line end) shows.
#[derive(Clone, Copy, Debug, PartialEq, Eq, Structural)]
pub enum Glyph {
    Space,
    UpperHalf,
    LowerHalf,
    Newline,
}

/// Foreground and background colour of a span; `None` is the terminal default.
#[derive(Clone, Copy, Debug, PartialEq, Eq, Structural)]
pub struct Style {
    pub foreground: Option<TermColor>,
    pub background: Option<TermColor>,
}

/// One glyph with the style it is drawn in.
#[derive(Clone, Copy, Debug, PartialEq, Eq, Structural)]
pub struct GlyphSpan {
    pub glyph: Glyph,
    pub style: Style,
}

pub open spec fn plain() -> Style {
    Style { foreground: None, background: None }
}

pub open spec fn is_plain(s: Style) -> bool {
    s.foreground is None && s.background is None
}

/// The characters a glyph is written as.
pub open spec fn glyph_text(g: Glyph) -> Seq<char> {
    match g {
        Glyph::Space => seq![' '],
        Glyph::UpperHalf => seq!['\u{2580}'],
        Glyph::LowerHalf => seq!['\u{2584}'],
        Glyph::Newline => seq!['\n'],
    }
}

pub open spec fn digit_char(d: nat) -> char {
    (d + 48) as char
}

/// Decimal digits of `n`, without leading zeros.
pub open spec fn dec(n: nat) -> Seq<char>
    decreases n,
{
    if n < 10 {
        seq![digit_char(n)]
    } else {
        dec(n / 10).push(digit_char(n % 10))
    }
}

/// SGR parameters selecting colour `c`; `base` is 30 for the foreground and
/// 40 for the background.
pub open spec fn color_code(c: TermColor, base: nat) -> Seq<char> {
    match c {
        TermColor::Basic(b) => dec(base + basic_index(b)),
        TermColor::Fixed(n) => dec(base + 8) + seq![';', '5', ';'] + dec(n as nat),
        TermColor::Rgb(r, g, b) => dec(base + 8) + seq![';', '2', ';'] + dec(r as nat) + seq![';']
            + dec(g as nat) + seq![';'] + dec(b as nat),
    }
}

/// SGR parameters of a style: the background's, then the foreground's.
pub open spec fn sgr_params(s: Style) -> Seq<char> {
    match (s.background, s.foreground) {
        (Some(b), Some(f)) => color_code(b, 40) + seq![';'] + color_code(f, 30),
        (Some(b), None) => color_code(b, 40),
        (None, Some(f)) => color_code(f, 30),
        (None, None) => Seq::empty(),
    }
}

/// The escape sequence that turns on the colours of a style; nothing for the
/// plain style.
pub open spec fn sgr_text(s: Style) -> Seq<char> {
    if is_plain(s) {
        Seq::empty()
    } else {
        seq!['\u{1b}', '['] + sgr_params(s) + seq!['m']
    }
}

/// The escape sequence that returns to the default style.
pub open spec fn reset_text() -> Seq<char> {
    seq!['\u{1b}', '[', '0', 'm']
}

/// One unit of styled output: an escape sequence that turns on the colours of
/// a style, the reset sequence, or a glyph.
#[derive(Clone, Copy, Debug, PartialEq, Eq, Structural)]
pub enum Piece {
    Sgr(Style),
    Reset,
    Text(Glyph),
}

pub open spec fn piece_text(p: Piece) -> Seq<char> {
    match p {
        Piece::Sgr(s) => sgr_text(s),
        Piece::Reset => reset_text(),
        Piece::Text(g) => glyph_text(g),
    }
}

/// The characters a sequence of pieces is written as.
pub open spec fn pieces_text(ps: Seq<Piece>) -> Seq<char>
    decreases ps.len(),
{
    if ps.len() == 0 {
        Seq::empty()
    } else {
        pieces_text(ps.drop_last()) + piece_text(ps.last())
    }
}

/// The terminal's style after it reads one piece: an SGR sequence sets the
/// colours it names and keeps the others, the reset clears both.
pub open spec fn apply(state: Style, p: Piece) -> Style {
    match p {
        Piece::Sgr(s) => Style {
            foreground: if s.foreground is Some { s.foreground } else { state.foreground },
            background: if s.background is Some { s.background } else { state.background },
        },
        Piece::Reset => plain(),
        Piece::Text(_) => state,
    }
}

/// The terminal's style after it reads all of `ps`, starting in `state`.
pub open spec fn final_state(state: Style, ps: Seq<Piece>) -> Style
    decreases ps.len(),
{
    if ps.len() == 0 {
        state
    } else {
        final_state(apply(state, ps[0]), ps.drop_first())
    }
}

/// Each glyph of `ps` with the style the terminal draws it in, starting in
/// `state`.
pub open spec fn rendered(state: Style, ps: Seq<Piece>) -> Seq<(Glyph, Style)>
    decreases ps.len(),
{
    if ps.len() == 0 {
        Seq::empty()
    } else {
        let head = match ps[0] {
            Piece::Text(g) => seq![(g, state)],
            _ => Seq::empty(),
        };
        head + rendered(apply(state, ps[0]), ps.drop_first())
    }
}

/// The pieces that end a run in style `s`: a reset, unless `s` is plain.
pub open spec fn suffix_pieces(s: Style) -> Seq<Piece> {
    if is_plain(s) {
        Seq::empty()
    } else {
        seq![Piece::Reset]
    }
}

/// The least the terminal must read to go from style `prev` to style `next`:
/// nothing when they are equal; a reset and `next` in full when a colour of
/// `prev` must be cleared; else the colours that change.
pub open spec fn transition_pieces(prev: Style, next: Style) -> Seq<Piece> {
    if prev == next {
        Seq::empty()
    } else if (prev.foreground is Some && next.foreground is None) || (prev.background is Some
        && next.background is None) {
        seq![Piece::Reset, Piece::Sgr(next)]
    } else {
        seq![
            Piece::Sgr(
                Style {
                    foreground: if prev.foreground != next.foreground {
                        next.foreground
                    } else {
                        None
                    },
                    background: if prev.background != next.background {
                        next.background
                    } else {
                        None
                    },
                },
            ),
        ]
    }
}

/// What follows the opening sequence when spans are written after a span in
/// style `prev`: for each span, the transition into its style and its glyph;
/// then the end of the last style.
pub open spec fn emit_tail(prev: Style, spans: Seq<GlyphSpan>) -> Seq<Piece>
    decreases spans.len(),
{
    if spans.len() == 0 {
        suffix_pieces(prev)
    } else {
        transition_pieces(prev, spans[0].style) + seq![Piece::Text(spans[0].glyph)] + emit_tail(
            spans[0].style,
            spans.drop_first(),
        )
    }
}

/// The minimal writing of `spans`: the first span's style in full, then
/// `emit_tail`; nothing at all for no spans.
pub open spec fn emit_pieces(spans: Seq<GlyphSpan>) -> Seq<Piece> {
    if spans.len() == 0 {
        Seq::empty()
    } else {
        seq![Piece::Sgr(spans[0].style)] + emit_tail(spans[0].style, spans)
    }
}

/// The naive writing of one span: its style, its glyph, and the end of its
/// style.
pub open spec fn naive_span(s: GlyphSpan) -> Seq<Piece> {
    seq![Piece::Sgr(s.style), Piece::Text(s.glyph)] + suffix_pieces(s.style)
}

/// The naive writing of `spans`: each span on its own, one after another.
pub open spec fn naive_pieces(spans: Seq<GlyphSpan>) -> Seq<Piece>
    decreases spans.len(),
{
    if spans.len() == 0 {
        Seq::empty()
    } else {
        naive_span(spans[0]) + naive_pieces(spans.drop_first())
    }
}

/// Each span's glyph with its style.
pub open spec fn styled_glyphs(spans: Seq<GlyphSpan>) -> Seq<(Glyph, Style)> {
    Seq::new(spans.len(), |i: int| (spans[i].glyph, spans[i].style))
}

} // verus!
