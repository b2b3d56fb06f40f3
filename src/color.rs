//! RGB triples, the colours a terminal can show, and the distance between
//! two triples.
use vstd::prelude::*;

verus! {

/// An RGB triple, one byte per channel.
pub type Rgb = (u8, u8, u8);

/// Square of the difference of two channel values.
pub open spec fn channel_sq(a: u8, b: u8) -> nat {
    ((a as int - b as int) * (a as int - b as int)) as nat
}

/// Squared Euclidean distance between two RGB triples.
pub open spec fn sq_dist(a: Rgb, b: Rgb) -> nat {
    channel_sq(a.0, b.0) + channel_sq(a.1, b.1) + channel_sq(a.2, b.2)
}

fn channel_distance_sq(a: u8, b: u8) -> (d: u32)
    ensures
        d == channel_sq(a, b),
        d <= 65025,
{
    let diff: u8 = if a >= b {
        a - b
    } else {
        b - a
    };
    let wide: u32 = diff as u32;
    assert(wide * wide == (a as int - b as int) * (a as int - b as int)
        && wide * wide <= 65025) by (nonlinear_arith)
        requires
            wide == diff,
            diff as int == a as int - b as int || diff as int == b as int - a as int,
            wide <= 255,
    ;
    wide * wide
}

/// Squared Euclidean distance between two RGB triples, with no gamma or
/// perceptual weighting.
pub fn euclidian_distance(ca: (u8, u8, u8), cb: (u8, u8, u8)) -> (d: u32)
    ensures
        d == sq_dist(ca, cb),
{
    let rd = channel_distance_sq(ca.0, cb.0);
    let gd = channel_distance_sq(ca.1, cb.1);
    let bd = channel_distance_sq(ca.2, cb.2);
    rd + gd + bd
}

/// The eight basic terminal colours, in the order of their SGR codes.
#[derive(Clone, Copy, Debug, PartialEq, Eq, Structural)]
pub enum BasicColor {
    Black,
    Red,
    Green,
    Yellow,
    Blue,
    Magenta,
    Cyan,
    White,
}

/// A colour as a terminal shows it: a basic colour, an index into the
/// 256-colour palette, or a raw 24-bit value.
#[derive(Clone, Copy, Debug, PartialEq, Eq, Structural)]
pub enum TermColor {
    Basic(BasicColor),
    Fixed(u8),
    Rgb(u8, u8, u8),
}

/// Position of a basic colour in the basic table (0 for black, 7 for white).
pub open spec fn basic_index(c: BasicColor) -> nat {
    match c {
        BasicColor::Black => 0,
        BasicColor::Red => 1,
        BasicColor::Green => 2,
        BasicColor::Yellow => 3,
        BasicColor::Blue => 4,
        BasicColor::Magenta => 5,
        BasicColor::Cyan => 6,
        BasicColor::White => 7,
    }
}

/// The basic colour at a position of the basic table.
pub open spec fn basic_at(i: int) -> BasicColor {
    if i == 0 {
        BasicColor::Black
    } else if i == 1 {
        BasicColor::Red
    } else if i == 2 {
        BasicColor::Green
    } else if i == 3 {
        BasicColor::Yellow
    } else if i == 4 {
        BasicColor::Blue
    } else if i == 5 {
        BasicColor::Magenta
    } else if i == 6 {
        BasicColor::Cyan
    } else {
        BasicColor::White
    }
}

/// The fixed RGB value each basic colour is matched against.
pub open spec fn basic_reference_rgb(c: BasicColor) -> Rgb {
    match c {
        BasicColor::Black => (0, 0, 0),
        BasicColor::Red => (205, 0, 0),
        BasicColor::Green => (0, 205, 0),
        BasicColor::Yellow => (205, 205, 0),
        BasicColor::Blue => (0, 0, 238),
        BasicColor::Magenta => (205, 0, 205),
        BasicColor::Cyan => (0, 205, 205),
        BasicColor::White => (229, 229, 229),
    }
}

/// The basic table: the reference values of the eight basic colours, in order.
pub open spec fn basic_palette() -> Seq<Rgb> {
    Seq::new(8, |i: int| basic_reference_rgb(basic_at(i)))
}

/// The sixteen system entries of the 256-colour palette.
pub open spec fn system_rgb(i: int) -> Rgb {
    if i == 0 {
        (0, 0, 0)
    } else if i == 1 {
        (128, 0, 0)
    } else if i == 2 {
        (0, 128, 0)
    } else if i == 3 {
        (128, 128, 0)
    } else if i == 4 {
        (0, 0, 128)
    } else if i == 5 {
        (128, 0, 128)
    } else if i == 6 {
        (0, 128, 128)
    } else if i == 7 {
        (192, 192, 192)
    } else if i == 8 {
        (128, 128, 128)
    } else if i == 9 {
        (255, 0, 0)
    } else if i == 10 {
        (0, 255, 0)
    } else if i == 11 {
        (255, 255, 0)
    } else if i == 12 {
        (0, 0, 255)
    } else if i == 13 {
        (255, 0, 255)
    } else if i == 14 {
        (0, 255, 255)
    } else {
        (255, 255, 255)
    }
}

/// Channel value of step `n` (0 to 5) of the 6x6x6 colour cube.
pub open spec fn cube_level(n: int) -> u8 {
    if n == 0 {
        0
    } else {
        (55 + 40 * n) as u8
    }
}

/// Entry `i` of the 256-colour palette: 16 system entries, then a 6x6x6
/// colour cube, then a 24-step gray ramp.
pub open spec fn palette_256_rgb(i: int) -> Rgb {
    if i < 16 {
        system_rgb(i)
    } else if i < 232 {
        let k = i - 16;
        (cube_level(k / 36), cube_level((k / 6) % 6), cube_level(k % 6))
    } else {
        let v = (8 + 10 * (i - 232)) as u8;
        (v, v, v)
    }
}

/// The whole 256-colour palette, in index order.
pub open spec fn indexed256_palette() -> Seq<Rgb> {
    Seq::new(256, |i: int| palette_256_rgb(i))
}

/// Index that a left-to-right scan of `table` keeps as nearest to `target`:
/// a later entry replaces the kept one only when it is strictly closer, so
/// among entries at the least distance the first wins.
pub open spec fn nearest_index(target: Rgb, table: Seq<Rgb>) -> int
    decreases table.len(),
{
    if table.len() <= 1 {
        0
    } else {
        let j = nearest_index(target, table.drop_last());
        if sq_dist(target, table.last()) < sq_dist(target, table[j]) {
            table.len() - 1
        } else {
            j
        }
    }
}

/// `j` is an entry of `table` at the least distance from `target`, and every
/// entry before it is strictly farther.
pub open spec fn is_first_nearest(target: Rgb, table: Seq<Rgb>, j: int) -> bool {
    &&& 0 <= j < table.len()
    &&& forall|i: int| 0 <= i < table.len() ==> sq_dist(target, table[j]) <= sq_dist(target, #[trigger] table[i])
    &&& forall|i: int| 0 <= i < j ==> sq_dist(target, table[j]) < sq_dist(target, #[trigger] table[i])
}

/// The scan's choice is the first entry at the least distance.
pub proof fn lemma_nearest_index_is_first_nearest(target: Rgb, table: Seq<Rgb>)
    requires
        table.len() > 0,
    ensures
        is_first_nearest(target, table, nearest_index(target, table)),
    decreases table.len(),
{
    if table.len() > 1 {
        let prefix = table.drop_last();
        lemma_nearest_index_is_first_nearest(target, prefix);
        assert forall|i: int| 0 <= i < prefix.len() implies #[trigger] table[i] == prefix[i] by {}
    }
}

/// Index of the entry of `choices` nearest to `target` by squared Euclidean
/// distance, the first one on ties; `None` when there are no choices.
pub fn pick_closest_from(target: Rgb, choices: &[Rgb]) -> (r: Option<usize>)
    ensures
        choices@.len() == 0 ==> r is None,
        choices@.len() > 0 ==> r == Some(nearest_index(target, choices@) as usize),
{
    if choices.len() == 0 {
        return None;
    }
    let mut best: usize = 0;
    let mut best_dist: u32 = euclidian_distance(target, choices[0]);
    let mut i: usize = 1;
    assert(choices@.take(1).len() == 1);
    while i < choices.len()
        invariant
            1 <= i <= choices@.len(),
            best < i,
            best == nearest_index(target, choices@.take(i as int)),
            best_dist == sq_dist(target, choices@[best as int]),
        decreases choices@.len() - i,
    {
        let d = euclidian_distance(target, choices[i]);
        let ghost before = choices@.take(i as int);
        let ghost after = choices@.take(i as int + 1);
        assert(after.drop_last() =~= before);
        assert(after.last() == choices@[i as int]);
        assert(before[best as int] == choices@[best as int]);
        if d < best_dist {
            best = i;
            best_dist = d;
        }
        i = i + 1;
    }
    assert(choices@.take(i as int) =~= choices@);
    Some(best)
}

fn system_entry(i: u8) -> (c: Rgb)
    requires
        i < 16,
    ensures
        c == system_rgb(i as int),
{
    if i == 0 {
        (0, 0, 0)
    } else if i == 1 {
        (128, 0, 0)
    } else if i == 2 {
        (0, 128, 0)
    } else if i == 3 {
        (128, 128, 0)
    } else if i == 4 {
        (0, 0, 128)
    } else if i == 5 {
        (128, 0, 128)
    } else if i == 6 {
        (0, 128, 128)
    } else if i == 7 {
        (192, 192, 192)
    } else if i == 8 {
        (128, 128, 128)
    } else if i == 9 {
        (255, 0, 0)
    } else if i == 10 {
        (0, 255, 0)
    } else if i == 11 {
        (255, 255, 0)
    } else if i == 12 {
        (0, 0, 255)
    } else if i == 13 {
        (255, 0, 255)
    } else if i == 14 {
        (0, 255, 255)
    } else {
        (255, 255, 255)
    }
}

fn cube_step(n: u8) -> (v: u8)
    requires
        n < 6,
    ensures
        v == cube_level(n as int),
{
    if n == 0 {
        0
    } else {
        55 + 40 * n
    }
}

/// Entry `i` of the 256-colour palette.
pub fn palette_256_entry(i: u8) -> (c: Rgb)
    ensures
        c == palette_256_rgb(i as int),
{
    if i < 16 {
        system_entry(i)
    } else if i < 232 {
        let k: u8 = i - 16;
        (cube_step(k / 36), cube_step((k / 6) % 6), cube_step(k % 6))
    } else {
        let v: u8 = 8 + 10 * (i - 232);
        (v, v, v)
    }
}

/// The 256-colour palette as a table, built once by its user.
pub fn indexed256_table() -> (v: Vec<Rgb>)
    ensures
        v@ == indexed256_palette(),
{
    let mut v: Vec<Rgb> = Vec::with_capacity(256);
    let mut i: usize = 0;
    while i < 256
        invariant
            i <= 256,
            v@ == indexed256_palette().take(i as int),
        decreases 256 - i,
    {
        let c = palette_256_entry(i as u8);
        v.push(c);
        i = i + 1;
        assert(v@ =~= indexed256_palette().take(i as int));
    }
    assert(indexed256_palette().take(256) =~= indexed256_palette());
    v
}

/// The reference RGB value of a basic colour.
pub fn basic_reference(c: BasicColor) -> (r: Rgb)
    ensures
        r == basic_reference_rgb(c),
{
    match c {
        BasicColor::Black => (0, 0, 0),
        BasicColor::Red => (205, 0, 0),
        BasicColor::Green => (0, 205, 0),
        BasicColor::Yellow => (205, 205, 0),
        BasicColor::Blue => (0, 0, 238),
        BasicColor::Magenta => (205, 0, 205),
        BasicColor::Cyan => (0, 205, 205),
        BasicColor::White => (229, 229, 229),
    }
}

/// The basic colour at position `i` of the basic table.
pub fn basic_color_at(i: usize) -> (c: BasicColor)
    requires
        i < 8,
    ensures
        c == basic_at(i as int),
        basic_index(c) == i,
{
    if i == 0 {
        BasicColor::Black
    } else if i == 1 {
        BasicColor::Red
    } else if i == 2 {
        BasicColor::Green
    } else if i == 3 {
        BasicColor::Yellow
    } else if i == 4 {
        BasicColor::Blue
    } else if i == 5 {
        BasicColor::Magenta
    } else if i == 6 {
        BasicColor::Cyan
    } else {
        BasicColor::White
    }
}

/// The basic table as a table, built once by its user.
pub fn basic_table() -> (v: Vec<Rgb>)
    ensures
        v@ == basic_palette(),
{
    let mut v: Vec<Rgb> = Vec::with_capacity(8);
    let mut i: usize = 0;
    while i < 8
        invariant
            i <= 8,
            v@ == basic_palette().take(i as int),
        decreases 8 - i,
    {
        let c = basic_reference(basic_color_at(i));
        v.push(c);
        i = i + 1;
        assert(v@ =~= basic_palette().take(i as int));
    }
    assert(basic_palette().take(8) =~= basic_palette());
    v
}

} // verus!
