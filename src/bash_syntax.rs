//! Writing styled spans with as few escape sequences as possible, and
//! escaping text for a double-quoted shell string.
use vstd::prelude::*;
use crate::color::{BasicColor, TermColor, basic_index};
use crate::style::{
    apply, color_code, emit_pieces, emit_tail, final_state, glyph_text, is_plain, naive_pieces,
    naive_span, piece_text, pieces_text, plain, rendered, reset_text, sgr_params, sgr_text,
    styled_glyphs, suffix_pieces, transition_pieces, Glyph, GlyphSpan, Piece, Style,
};
use crate::text::{push_char, push_decimal};

verus! {

/// Writing a sequence of pieces one after another writes each in turn.
pub proof fn lemma_pieces_text_concat(a: Seq<Piece>, b: Seq<Piece>)
    ensures
        pieces_text(a + b) == pieces_text(a) + pieces_text(b),
    decreases b.len(),
{
    if b.len() == 0 {
        assert(a + b =~= a);
        assert(pieces_text(a) + pieces_text(b) =~= pieces_text(a));
    } else {
        lemma_pieces_text_concat(a, b.drop_last());
        assert((a + b).drop_last() =~= a + b.drop_last());
        assert((a + b).last() == b.last());
        assert(pieces_text(a + b) =~= pieces_text(a) + pieces_text(b));
    }
}

proof fn lemma_pieces_text_one(p: Piece)
    ensures
        pieces_text(seq![p]) == piece_text(p),
{
    let e = Seq::<Piece>::empty();
    assert(seq![p].drop_last() =~= e);
    assert(seq![p].last() == p);
    assert(pieces_text(e) == Seq::<char>::empty());
    assert(pieces_text(seq![p]) == pieces_text(e) + piece_text(p));
    assert(pieces_text(seq![p]) =~= piece_text(p));
}

fn basic_code_offset(b: BasicColor) -> (r: u8)
    ensures
        r == basic_index(b),
{
    match b {
        BasicColor::Black => 0,
        BasicColor::Red => 1,
        BasicColor::Green => 2,
        BasicColor::Yellow => 3,
        BasicColor::Blue => 4,
        BasicColor::Magenta => 5,
        BasicColor::Cyan => 6,
        BasicColor::White => 7,
    }
}

fn push_color_code(out: &mut String, c: TermColor, base: u8)
    requires
        base == 30 || base == 40,
    ensures
        final(out)@ == old(out)@ + color_code(c, base as nat),
{
    match c {
        TermColor::Basic(b) => {
            push_decimal(out, base + basic_code_offset(b));
        },
        TermColor::Fixed(n) => {
            push_decimal(out, base + 8);
            push_char(out, ';');
            push_char(out, '5');
            push_char(out, ';');
            push_decimal(out, n);
        },
        TermColor::Rgb(r, g, b) => {
            push_decimal(out, base + 8);
            push_char(out, ';');
            push_char(out, '2');
            push_char(out, ';');
            push_decimal(out, r);
            push_char(out, ';');
            push_decimal(out, g);
            push_char(out, ';');
            push_decimal(out, b);
        },
    }
    assert(final(out)@ =~= old(out)@ + color_code(c, base as nat));
}

/// Appends the escape sequence that turns on the colours of `s`.
fn push_sgr(out: &mut String, s: Style)
    ensures
        final(out)@ == old(out)@ + sgr_text(s),
{
    if s.foreground.is_none() && s.background.is_none() {
        assert(old(out)@ + sgr_text(s) =~= old(out)@);
        return;
    }
    push_char(out, '\u{1b}');
    push_char(out, '[');
    let ghost start = out@;
    match s.background {
        Some(b) => {
            push_color_code(out, b, 40);
            match s.foreground {
                Some(f) => {
                    push_char(out, ';');
                    push_color_code(out, f, 30);
                },
                None => {},
            }
        },
        None => {
            match s.foreground {
                Some(f) => {
                    push_color_code(out, f, 30);
                },
                None => {},
            }
        },
    }
    assert(out@ =~= start + sgr_params(s));
    push_char(out, 'm');
    assert(final(out)@ =~= old(out)@ + sgr_text(s));
}

fn push_reset(out: &mut String)
    ensures
        final(out)@ == old(out)@ + reset_text(),
{
    push_char(out, '\u{1b}');
    push_char(out, '[');
    push_char(out, '0');
    push_char(out, 'm');
    assert(final(out)@ =~= old(out)@ + reset_text());
}

fn push_glyph(out: &mut String, g: Glyph)
    ensures
        final(out)@ == old(out)@ + glyph_text(g),
{
    match g {
        Glyph::Space => push_char(out, ' '),
        Glyph::UpperHalf => push_char(out, '\u{2580}'),
        Glyph::LowerHalf => push_char(out, '\u{2584}'),
        Glyph::Newline => push_char(out, '\n'),
    }
    assert(final(out)@ =~= old(out)@ + glyph_text(g));
}

/// Appends the least that takes the terminal from style `prev` to style
/// `next`.
fn push_transition(out: &mut String, prev: Style, next: Style)
    ensures
        final(out)@ == old(out)@ + pieces_text(transition_pieces(prev, next)),
{
    if prev == next {
        assert(old(out)@ + pieces_text(transition_pieces(prev, next)) =~= old(out)@);
        return;
    }
    if (prev.foreground.is_some() && next.foreground.is_none()) || (prev.background.is_some()
        && next.background.is_none()) {
        push_reset(out);
        push_sgr(out, next);
        proof {
            lemma_pieces_text_one(Piece::Reset);
            lemma_pieces_text_concat(seq![Piece::Reset], seq![Piece::Sgr(next)]);
            lemma_pieces_text_one(Piece::Sgr(next));
            assert(seq![Piece::Reset] + seq![Piece::Sgr(next)] =~= transition_pieces(prev, next));
        }
        assert(final(out)@ =~= old(out)@ + pieces_text(transition_pieces(prev, next)));
    } else {
        let extra = Style {
            foreground: if prev.foreground != next.foreground {
                next.foreground
            } else {
                None
            },
            background: if prev.background != next.background {
                next.background
            } else {
                None
            },
        };
        push_sgr(out, extra);
        proof {
            lemma_pieces_text_one(Piece::Sgr(extra));
            assert(seq![Piece::Sgr(extra)] =~= transition_pieces(prev, next));
        }
        assert(final(out)@ =~= old(out)@ + pieces_text(transition_pieces(prev, next)));
    }
}

/// Writes `spans` in order: the first span's style in full, then for each
/// span only the escape codes that change the style from the span before,
/// then its glyph, and at the end a reset unless the last style is plain.
/// No spans give the empty string.
pub fn write_with_minimal_control_sequences(spans: &Vec<GlyphSpan>) -> (out: String)
    ensures
        out@ == pieces_text(emit_pieces(spans@)),
{
    let mut out = String::new();
    if spans.len() == 0 {
        assert(out@ =~= pieces_text(emit_pieces(spans@)));
        return out;
    }
    let first = spans[0].style;
    push_sgr(&mut out, first);
    proof {
        lemma_pieces_text_one(Piece::Sgr(first));
        lemma_pieces_text_concat(seq![Piece::Sgr(first)], emit_tail(first, spans@));
        assert(spans@.skip(0) =~= spans@);
    }
    let mut prev = first;
    let mut i: usize = 0;
    while i < spans.len()
        invariant
            0 <= i <= spans@.len(),
            spans@.len() > 0,
            prev == (if i == 0 {
                spans@[0].style
            } else {
                spans@[i - 1].style
            }),
            pieces_text(emit_pieces(spans@)) == out@ + pieces_text(
                emit_tail(prev, spans@.skip(i as int)),
            ),
        decreases spans@.len() - i,
    {
        let next = spans[i].style;
        let glyph = spans[i].glyph;
        let ghost rest = spans@.skip(i as int);
        let ghost tail = emit_tail(next, spans@.skip(i as int + 1));
        proof {
            assert(rest[0] == spans@[i as int]);
            assert(rest.drop_first() =~= spans@.skip(i as int + 1));
            let t = transition_pieces(prev, next);
            let g = seq![Piece::Text(glyph)];
            assert(emit_tail(prev, rest) == t + g + tail);
            lemma_pieces_text_concat(t + g, tail);
            lemma_pieces_text_concat(t, g);
            lemma_pieces_text_one(Piece::Text(glyph));
        }
        push_transition(&mut out, prev, next);
        push_glyph(&mut out, glyph);
        prev = next;
        i = i + 1;
        assert(pieces_text(emit_pieces(spans@)) =~= out@ + pieces_text(tail));
    }
    proof {
        assert(spans@.skip(i as int).len() == 0);
        assert(emit_tail(prev, spans@.skip(i as int)) == suffix_pieces(prev));
    }
    if prev.foreground.is_some() || prev.background.is_some() {
        push_reset(&mut out);
        proof {
            lemma_pieces_text_one(Piece::Reset);
        }
    }
    assert(out@ =~= pieces_text(emit_pieces(spans@)));
    out
}

/// A style whose colours are each absent or the same as in `n` is written
/// with no more characters than `n`.
proof fn lemma_sub_style_sgr_len(e: Style, n: Style)
    requires
        e.foreground is None || e.foreground == n.foreground,
        e.background is None || e.background == n.background,
    ensures
        sgr_text(e).len() <= sgr_text(n).len(),
{
}

/// The transition between two styles is no longer than ending the first and
/// starting the second.
proof fn lemma_transition_len(prev: Style, next: Style)
    ensures
        pieces_text(transition_pieces(prev, next)).len() <= pieces_text(suffix_pieces(prev)).len()
            + sgr_text(next).len(),
{
    lemma_pieces_text_one(Piece::Reset);
    if prev == next {
        assert(pieces_text(Seq::<Piece>::empty()).len() == 0);
    } else if (prev.foreground is Some && next.foreground is None) || (prev.background is Some
        && next.background is None) {
        lemma_pieces_text_one(Piece::Sgr(next));
        lemma_pieces_text_concat(seq![Piece::Reset], seq![Piece::Sgr(next)]);
        assert(seq![Piece::Reset] + seq![Piece::Sgr(next)] =~= transition_pieces(prev, next));
    } else {
        let t = transition_pieces(prev, next);
        let extra = match t[0] {
            Piece::Sgr(e) => e,
            _ => prev,
        };
        lemma_pieces_text_one(Piece::Sgr(extra));
        assert(t == seq![Piece::Sgr(extra)]);
        lemma_sub_style_sgr_len(extra, next);
    }
}

proof fn lemma_naive_span_len(s: GlyphSpan)
    ensures
        pieces_text(naive_span(s)).len() == sgr_text(s.style).len() + glyph_text(s.glyph).len()
            + pieces_text(suffix_pieces(s.style)).len(),
{
    let a = seq![Piece::Sgr(s.style)];
    let b = seq![Piece::Text(s.glyph)];
    assert(seq![Piece::Sgr(s.style), Piece::Text(s.glyph)] =~= a + b);
    lemma_pieces_text_concat(a + b, suffix_pieces(s.style));
    lemma_pieces_text_concat(a, b);
    lemma_pieces_text_one(Piece::Sgr(s.style));
    lemma_pieces_text_one(Piece::Text(s.glyph));
}

/// Writing spans after a span in style `prev` is no longer than ending `prev`
/// and writing each span on its own.
proof fn lemma_emit_tail_len(prev: Style, spans: Seq<GlyphSpan>)
    ensures
        pieces_text(emit_tail(prev, spans)).len() <= pieces_text(suffix_pieces(prev)).len()
            + pieces_text(naive_pieces(spans)).len(),
        spans.len() > 0 && spans[0].style == prev ==> pieces_text(emit_tail(prev, spans)).len()
            + sgr_text(prev).len() <= pieces_text(naive_pieces(spans)).len(),
    decreases spans.len(),
{
    if spans.len() == 0 {
        assert(pieces_text(Seq::<Piece>::empty()).len() == 0);
    } else {
        let s = spans[0];
        let rest = spans.drop_first();
        let t = transition_pieces(prev, s.style);
        let g = seq![Piece::Text(s.glyph)];
        let tail = emit_tail(s.style, rest);
        lemma_emit_tail_len(s.style, rest);
        lemma_pieces_text_concat(t + g, tail);
        lemma_pieces_text_concat(t, g);
        lemma_pieces_text_one(Piece::Text(s.glyph));
        lemma_transition_len(prev, s.style);
        lemma_pieces_text_concat(naive_span(s), naive_pieces(rest));
        lemma_naive_span_len(s);
        if s.style == prev {
            assert(t.len() == 0);
            assert(pieces_text(t).len() == 0);
        }
    }
}

/// Replaying `a` then `b` ends where replaying `b` from the end of `a` ends,
/// and draws what `a` draws followed by what `b` draws from there.
pub proof fn lemma_replay_concat(state: Style, a: Seq<Piece>, b: Seq<Piece>)
    ensures
        final_state(state, a + b) == final_state(final_state(state, a), b),
        rendered(state, a + b) == rendered(state, a) + rendered(final_state(state, a), b),
    decreases a.len(),
{
    if a.len() == 0 {
        assert(a + b =~= b);
        assert(rendered(state, a) + rendered(state, b) =~= rendered(state, b));
    } else {
        assert((a + b)[0] == a[0]);
        assert((a + b).drop_first() =~= a.drop_first() + b);
        lemma_replay_concat(apply(state, a[0]), a.drop_first(), b);
        let head = match a[0] {
            Piece::Text(g) => seq![(g, state)],
            _ => Seq::empty(),
        };
        assert(rendered(state, a + b) =~= head + (rendered(apply(state, a[0]), a.drop_first())
            + rendered(final_state(state, a), b)));
        assert(rendered(state, a + b) =~= rendered(state, a) + rendered(final_state(state, a), b));
    }
}

proof fn lemma_replay_one(state: Style, p: Piece)
    ensures
        final_state(state, seq![p]) == apply(state, p),
        rendered(state, seq![p]) == (match p {
            Piece::Text(g) => seq![(g, state)],
            _ => Seq::empty(),
        }),
{
    let e = Seq::<Piece>::empty();
    assert(seq![p].drop_first() =~= e);
    assert(seq![p][0] == p);
    assert(final_state(apply(state, p), e) == apply(state, p));
    assert(rendered(apply(state, p), e) == Seq::<(Glyph, Style)>::empty());
    assert(rendered(state, seq![p]) =~= (match p {
        Piece::Text(g) => seq![(g, state)],
        _ => Seq::empty(),
    }));
}

/// Replaying the transition from `prev` to `next` in style `prev` draws
/// nothing and leaves the terminal in style `next`.
proof fn lemma_replay_transition(prev: Style, next: Style)
    ensures
        final_state(prev, transition_pieces(prev, next)) == next,
        rendered(prev, transition_pieces(prev, next)) == Seq::<(Glyph, Style)>::empty(),
{
    let t = transition_pieces(prev, next);
    if prev == next {
    } else if (prev.foreground is Some && next.foreground is None) || (prev.background is Some
        && next.background is None) {
        lemma_replay_concat(prev, seq![Piece::Reset], seq![Piece::Sgr(next)]);
        lemma_replay_one(prev, Piece::Reset);
        lemma_replay_one(plain(), Piece::Sgr(next));
        assert(seq![Piece::Reset] + seq![Piece::Sgr(next)] =~= t);
        assert(rendered(prev, t) =~= Seq::<(Glyph, Style)>::empty());
    } else {
        let extra = match t[0] {
            Piece::Sgr(e) => e,
            _ => prev,
        };
        assert(t == seq![Piece::Sgr(extra)]);
        lemma_replay_one(prev, Piece::Sgr(extra));
    }
}

/// Replaying the end of a style leaves the terminal in the default style and
/// draws nothing.
proof fn lemma_replay_suffix(s: Style)
    ensures
        final_state(s, suffix_pieces(s)) == plain(),
        rendered(s, suffix_pieces(s)) == Seq::<(Glyph, Style)>::empty(),
{
    if !is_plain(s) {
        lemma_replay_one(s, Piece::Reset);
    }
}

proof fn lemma_styled_glyphs_cons(spans: Seq<GlyphSpan>)
    requires
        spans.len() > 0,
    ensures
        styled_glyphs(spans) == seq![(spans[0].glyph, spans[0].style)] + styled_glyphs(
            spans.drop_first(),
        ),
{
    assert(styled_glyphs(spans) =~= seq![(spans[0].glyph, spans[0].style)] + styled_glyphs(
        spans.drop_first(),
    ));
}

/// Replaying what follows a span in style `prev`, starting in `prev`, draws
/// each span's glyph in the span's style and ends in the default style.
proof fn lemma_replay_emit_tail(prev: Style, spans: Seq<GlyphSpan>)
    ensures
        final_state(prev, emit_tail(prev, spans)) == plain(),
        rendered(prev, emit_tail(prev, spans)) == styled_glyphs(spans),
    decreases spans.len(),
{
    if spans.len() == 0 {
        lemma_replay_suffix(prev);
        assert(styled_glyphs(spans) =~= Seq::<(Glyph, Style)>::empty());
    } else {
        let s = spans[0];
        let rest = spans.drop_first();
        let t = transition_pieces(prev, s.style);
        let g = seq![Piece::Text(s.glyph)];
        let tail = emit_tail(s.style, rest);
        lemma_replay_emit_tail(s.style, rest);
        lemma_replay_concat(prev, t + g, tail);
        lemma_replay_concat(prev, t, g);
        lemma_replay_transition(prev, s.style);
        lemma_replay_one(s.style, Piece::Text(s.glyph));
        lemma_styled_glyphs_cons(spans);
        assert(rendered(prev, t + g) =~= seq![(s.glyph, s.style)]);
    }
}

/// Replaying the naive writing from the default style draws each span's
/// glyph in the span's style and ends in the default style.
proof fn lemma_replay_naive(spans: Seq<GlyphSpan>)
    ensures
        final_state(plain(), naive_pieces(spans)) == plain(),
        rendered(plain(), naive_pieces(spans)) == styled_glyphs(spans),
    decreases spans.len(),
{
    if spans.len() == 0 {
        assert(styled_glyphs(spans) =~= Seq::<(Glyph, Style)>::empty());
    } else {
        let s = spans[0];
        let rest = spans.drop_first();
        let a = seq![Piece::Sgr(s.style)];
        let b = seq![Piece::Text(s.glyph)];
        lemma_replay_naive(rest);
        assert(seq![Piece::Sgr(s.style), Piece::Text(s.glyph)] =~= a + b);
        lemma_replay_concat(plain(), naive_span(s), naive_pieces(rest));
        lemma_replay_concat(plain(), a + b, suffix_pieces(s.style));
        lemma_replay_concat(plain(), a, b);
        lemma_replay_one(plain(), Piece::Sgr(s.style));
        assert(apply(plain(), Piece::Sgr(s.style)) == s.style);
        lemma_replay_one(s.style, Piece::Text(s.glyph));
        lemma_replay_suffix(s.style);
        lemma_styled_glyphs_cons(spans);
        assert(rendered(plain(), naive_span(s)) =~= seq![(s.glyph, s.style)]);
    }
}

/// Writing spans with the fewest escape codes is never longer than writing
/// each span on its own (its colours, its glyph, then a reset), and a
/// terminal that replays either one draws every glyph in its span's style
/// and ends in the default style.
pub proof fn lemma_minimal_sequences_match_naive(spans: Seq<GlyphSpan>)
    ensures
        pieces_text(emit_pieces(spans)).len() <= pieces_text(naive_pieces(spans)).len(),
        rendered(plain(), emit_pieces(spans)) == rendered(plain(), naive_pieces(spans)),
        rendered(plain(), emit_pieces(spans)) == styled_glyphs(spans),
        final_state(plain(), emit_pieces(spans)) == plain(),
        final_state(plain(), naive_pieces(spans)) == plain(),
{
    lemma_replay_naive(spans);
    if spans.len() == 0 {
        assert(styled_glyphs(spans) =~= Seq::<(Glyph, Style)>::empty());
    } else {
        let first = spans[0].style;
        let head = seq![Piece::Sgr(first)];
        lemma_emit_tail_len(first, spans);
        lemma_pieces_text_concat(head, emit_tail(first, spans));
        lemma_pieces_text_one(Piece::Sgr(first));
        lemma_replay_concat(plain(), head, emit_tail(first, spans));
        lemma_replay_one(plain(), Piece::Sgr(first));
        assert(apply(plain(), Piece::Sgr(first)) == first);
        lemma_replay_emit_tail(first, spans);
        assert(rendered(plain(), emit_pieces(spans)) =~= styled_glyphs(spans));
    }
}

/// Printable ASCII: space through tilde.
pub open spec fn is_printable_ascii(c: char) -> bool {
    0x20 <= c as u32 <= 0x7e
}

/// The lower-case hexadecimal digit of `d` (0 to 15).
pub open spec fn hex_digit_char(d: nat) -> char {
    if d < 10 {
        (d + 48) as char
    } else {
        (d + 87) as char
    }
}

/// The last `k` hexadecimal digits of `n`.
pub open spec fn hex_fixed(n: nat, k: nat) -> Seq<char>
    decreases k,
{
    if k == 0 {
        Seq::empty()
    } else {
        hex_fixed(n / 16, (k - 1) as nat).push(hex_digit_char(n % 16))
    }
}

/// Number of hexadecimal digits a code point is escaped with: at least four,
/// more only where the value needs them.
pub open spec fn hex_width(n: nat) -> nat {
    if n < 0x10000 {
        4
    } else if n < 0x100000 {
        5
    } else {
        6
    }
}

/// What one character becomes: backslash and double quote get a backslash in
/// front; escape, line feed and carriage return become `\e`, `\n` and `\r`;
/// any other character that is not printable ASCII becomes `\u` and the
/// hexadecimal digits of its code point; the rest stays as it is.
pub open spec fn char_escape(c: char) -> Seq<char> {
    if c == '\\' || c == '"' {
        seq!['\\', c]
    } else if c == '\u{1b}' {
        seq!['\\', 'e']
    } else if c == '\n' {
        seq!['\\', 'n']
    } else if c == '\r' {
        seq!['\\', 'r']
    } else if !is_printable_ascii(c) {
        seq!['\\', 'u'] + hex_fixed(c as nat, hex_width(c as nat))
    } else {
        seq![c]
    }
}

/// Each character of `s` escaped in turn.
pub open spec fn escaped(s: Seq<char>) -> Seq<char>
    decreases s.len(),
{
    if s.len() == 0 {
        Seq::empty()
    } else {
        escaped(s.drop_last()) + char_escape(s.last())
    }
}

/// Escaping never shortens a text: each character becomes at least one.
proof fn lemma_escaped_len(s: Seq<char>)
    ensures
        escaped(s).len() >= s.len(),
    decreases s.len(),
{
    if s.len() > 0 {
        lemma_escaped_len(s.drop_last());
    }
}

fn hex_digit(d: u32) -> (c: char)
    requires
        d < 16,
    ensures
        c == hex_digit_char(d as nat),
{
    if d < 10 {
        ((d as u8) + 48) as char
    } else {
        ((d as u8) + 87) as char
    }
}

fn push_hex_fixed(out: &mut String, n: u32, k: u32)
    ensures
        final(out)@ == old(out)@ + hex_fixed(n as nat, k as nat),
    decreases k,
{
    if k > 0 {
        push_hex_fixed(out, n / 16, k - 1);
        push_char(out, hex_digit(n % 16));
        assert(final(out)@ =~= old(out)@ + hex_fixed(n as nat, k as nat));
    } else {
        assert(final(out)@ =~= old(out)@ + hex_fixed(n as nat, k as nat));
    }
}

fn push_escaped_char(out: &mut String, c: char)
    ensures
        final(out)@ == old(out)@ + char_escape(c),
{
    let code: u32 = c as u32;
    if c == '\\' || c == '"' {
        push_char(out, '\\');
        push_char(out, c);
    } else if c == '\u{1b}' {
        push_char(out, '\\');
        push_char(out, 'e');
    } else if c == '\n' {
        push_char(out, '\\');
        push_char(out, 'n');
    } else if c == '\r' {
        push_char(out, '\\');
        push_char(out, 'r');
    } else if code < 0x20 || code > 0x7e {
        push_char(out, '\\');
        push_char(out, 'u');
        let width: u32 = if code < 0x10000 {
            4
        } else if code < 0x100000 {
            5
        } else {
            6
        };
        push_hex_fixed(out, code, width);
    } else {
        push_char(out, c);
    }
    assert(final(out)@ =~= old(out)@ + char_escape(c));
}

/// Rewrites `payload` so that it can stand between double quotes in a shell
/// command that reads backslash escapes: see `char_escape` for what each
/// character becomes.
pub fn escape_for_string_content(payload: &String) -> (out: String)
    ensures
        out@ == escaped(payload@),
        out@.len() >= payload@.len(),
{
    proof {
        lemma_escaped_len(payload@);
    }
    let mut out = String::new();
    for c in it: payload.as_str().chars()
        invariant
            it.seq() == payload@,
            out@ == escaped(payload@.take(it.index() as int)),
    {
        assert(payload@.take(it.index() as int + 1).drop_last() =~= payload@.take(it.index() as int));
        push_escaped_char(&mut out, c);
    }
    assert(payload@.take(payload@.len() as int) =~= payload@);
    out
}

/// Whether `c` is a lower-case hexadecimal digit.
pub open spec fn is_hex_char(c: char) -> bool {
    ('0' <= c && c <= '9') || ('a' <= c && c <= 'f')
}

/// The value of a lower-case hexadecimal digit.
pub open spec fn hex_char_value(c: char) -> nat {
    if c <= '9' {
        (c as nat - 48) as nat
    } else {
        (c as nat - 87) as nat
    }
}

/// Reads the backslash escapes that `char_escape` writes, one at a time from
/// left to right: `\\`, `\"`, `\e`, `\n`, `\r`, and `\u` with four
/// hexadecimal digits; any other character, a lone backslash included,
/// stands for itself.
pub open spec fn unescape(s: Seq<char>) -> Seq<char>
    decreases s.len(),
{
    if s.len() == 0 {
        Seq::empty()
    } else if s[0] == '\\' && s.len() >= 2 && (s[1] == '\\' || s[1] == '"') {
        seq![s[1]] + unescape(s.skip(2))
    } else if s[0] == '\\' && s.len() >= 2 && s[1] == 'e' {
        seq!['\u{1b}'] + unescape(s.skip(2))
    } else if s[0] == '\\' && s.len() >= 2 && s[1] == 'n' {
        seq!['\n'] + unescape(s.skip(2))
    } else if s[0] == '\\' && s.len() >= 2 && s[1] == 'r' {
        seq!['\r'] + unescape(s.skip(2))
    } else if s[0] == '\\' && s.len() >= 6 && s[1] == 'u' && is_hex_char(s[2]) && is_hex_char(s[3])
        && is_hex_char(s[4]) && is_hex_char(s[5]) {
        let v = hex_char_value(s[2]) * 4096 + hex_char_value(s[3]) * 256 + hex_char_value(s[4]) * 16
            + hex_char_value(s[5]);
        seq![v as char] + unescape(s.skip(6))
    } else {
        seq![s[0]] + unescape(s.skip(1))
    }
}

/// Escaping a concatenation escapes each part.
proof fn lemma_escaped_concat(a: Seq<char>, b: Seq<char>)
    ensures
        escaped(a + b) == escaped(a) + escaped(b),
    decreases b.len(),
{
    if b.len() == 0 {
        assert(a + b =~= a);
        assert(escaped(a) + escaped(b) =~= escaped(a));
    } else {
        lemma_escaped_concat(a, b.drop_last());
        assert((a + b).drop_last() =~= a + b.drop_last());
        assert((a + b).last() == b.last());
        assert(escaped(a + b) =~= escaped(a) + escaped(b));
    }
}

proof fn lemma_escaped_one(c: char)
    ensures
        escaped(seq![c]) == char_escape(c),
{
    let e = Seq::<char>::empty();
    assert(seq![c].drop_last() =~= e);
    assert(seq![c].last() == c);
    assert(escaped(e) == e);
    assert(escaped(seq![c]) =~= char_escape(c));
}

proof fn lemma_hex_digit(d: nat)
    requires
        d < 16,
    ensures
        is_hex_char(hex_digit_char(d)),
        hex_char_value(hex_digit_char(d)) == d,
{
}

/// The four hexadecimal digits of a value under 0x10000 read back as that
/// value.
proof fn lemma_hex4_reads_back(n: nat)
    requires
        n < 0x10000,
    ensures
        hex_fixed(n, 4).len() == 4,
        is_hex_char(hex_fixed(n, 4)[0]),
        is_hex_char(hex_fixed(n, 4)[1]),
        is_hex_char(hex_fixed(n, 4)[2]),
        is_hex_char(hex_fixed(n, 4)[3]),
        hex_char_value(hex_fixed(n, 4)[0]) * 4096 + hex_char_value(hex_fixed(n, 4)[1]) * 256
            + hex_char_value(hex_fixed(n, 4)[2]) * 16 + hex_char_value(hex_fixed(n, 4)[3]) == n,
{
    let d0 = n % 16;
    let n1 = n / 16;
    let d1 = n1 % 16;
    let n2 = n1 / 16;
    let d2 = n2 % 16;
    let n3 = n2 / 16;
    let d3 = n3 % 16;
    assert(hex_fixed(n3 / 16, 0) =~= Seq::<char>::empty());
    assert(hex_fixed(n3, 1) == hex_fixed(n3 / 16, 0).push(hex_digit_char(d3)));
    assert(hex_fixed(n2, 2) == hex_fixed(n3, 1).push(hex_digit_char(d2)));
    assert(hex_fixed(n1, 3) == hex_fixed(n2, 2).push(hex_digit_char(d1)));
    assert(hex_fixed(n, 4) == hex_fixed(n1, 3).push(hex_digit_char(d0)));
    assert(hex_fixed(n, 4) =~= seq![
        hex_digit_char(d3),
        hex_digit_char(d2),
        hex_digit_char(d1),
        hex_digit_char(d0),
    ]);
    lemma_hex_digit(d0);
    lemma_hex_digit(d1);
    lemma_hex_digit(d2);
    lemma_hex_digit(d3);
    assert(d3 * 4096 + d2 * 256 + d1 * 16 + d0 == n) by (nonlinear_arith)
        requires
            n < 0x10000,
            d0 == n % 16,
            n1 == n / 16,
            d1 == n1 % 16,
            n2 == n1 / 16,
            d2 == n2 % 16,
            n3 == n2 / 16,
            d3 == n3 % 16,
    ;
}

/// Reading back the escape of one character, followed by anything, gives the
/// character followed by what the rest reads as.
proof fn lemma_unescape_char_escape(c: char, rest: Seq<char>)
    requires
        (c as u32) < 0x10000,
    ensures
        unescape(char_escape(c) + rest) == seq![c] + unescape(rest),
{
    let s = char_escape(c) + rest;
    if c == '\\' || c == '"' || c == '\u{1b}' || c == '\n' || c == '\r' {
        assert(s.skip(2) =~= rest);
    } else if !is_printable_ascii(c) {
        let n = c as nat;
        lemma_hex4_reads_back(n);
        let h = hex_fixed(n, 4);
        assert(s[2] == h[0] && s[3] == h[1] && s[4] == h[2] && s[5] == h[3]);
        assert(s.skip(6) =~= rest);
        assert((n as char) == c);
    } else {
        assert(s.skip(1) =~= rest);
    }
}

/// Reading back the escape of a text gives that text again, when every code
/// point in it fits in four hexadecimal digits.
pub proof fn lemma_unescape_escaped(s: Seq<char>)
    requires
        forall|i: int| 0 <= i < s.len() ==> (#[trigger] s[i] as u32) < 0x10000,
    ensures
        unescape(escaped(s)) == s,
    decreases s.len(),
{
    if s.len() > 0 {
        let rest = s.drop_first();
        assert(s =~= seq![s[0]] + rest);
        assert forall|i: int| 0 <= i < rest.len() implies (#[trigger] rest[i] as u32) < 0x10000 by {
            assert(rest[i] == s[i + 1]);
        }
        lemma_unescape_escaped(rest);
        lemma_escaped_concat(seq![s[0]], rest);
        lemma_escaped_one(s[0]);
        lemma_unescape_char_escape(s[0], escaped(rest));
        assert(unescape(escaped(s)) =~= s);
    } else {
        assert(escaped(s) =~= Seq::<char>::empty());
        assert(unescape(escaped(s)) =~= s);
    }
}

} // verus!
