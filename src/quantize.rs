//! Mapping RGB values to the colours of a fidelity tier.
use vstd::prelude::*;
use crate::color::{
    basic_at, basic_color_at, basic_index, basic_palette, basic_reference_rgb, basic_table,
    indexed256_palette, indexed256_table, lemma_nearest_index_is_first_nearest, nearest_index,
    palette_256_rgb, pick_closest_from, sq_dist, BasicColor, Rgb, TermColor,
};

verus! {

/// Colour depth a terminal supports.
#[derive(Clone, Copy, Debug, PartialEq, Eq, Structural)]
pub enum ColorMode {
    /// 24-bit colour: values are passed through unchanged.
    TrueColor,
    /// The 256-colour palette.
    Indexed256,
    /// The eight basic colours.
    Basic8,
}

/// The table a tier matches against (none for true colour).
pub open spec fn mode_palette(mode: ColorMode) -> Seq<Rgb> {
    match mode {
        ColorMode::TrueColor => Seq::empty(),
        ColorMode::Indexed256 => indexed256_palette(),
        ColorMode::Basic8 => basic_palette(),
    }
}

/// The colour a tier shows for an RGB value: the value itself in true colour,
/// else the first nearest entry of the tier's table.
pub open spec fn quantize(mode: ColorMode, rgb: Rgb) -> TermColor {
    match mode {
        ColorMode::TrueColor => TermColor::Rgb(rgb.0, rgb.1, rgb.2),
        ColorMode::Indexed256 => TermColor::Fixed(nearest_index(rgb, indexed256_palette()) as u8),
        ColorMode::Basic8 => TermColor::Basic(basic_at(nearest_index(rgb, basic_palette()))),
    }
}

/// The RGB value a colour stands for.
pub open spec fn color_rgb(c: TermColor) -> Rgb {
    match c {
        TermColor::Basic(b) => basic_reference_rgb(b),
        TermColor::Fixed(n) => palette_256_rgb(n as int),
        TermColor::Rgb(r, g, b) => (r, g, b),
    }
}

/// A colour that a tier can produce.
pub open spec fn representable(mode: ColorMode, c: TermColor) -> bool {
    match c {
        TermColor::Rgb(_, _, _) => mode == ColorMode::TrueColor,
        TermColor::Fixed(_) => mode == ColorMode::Indexed256,
        TermColor::Basic(_) => mode == ColorMode::Basic8,
    }
}

/// True-colour mapping: the value itself.
pub fn color_mapping_truecolor(pixel: Rgb) -> (c: TermColor)
    ensures
        c == quantize(ColorMode::TrueColor, pixel),
{
    TermColor::Rgb(pixel.0, pixel.1, pixel.2)
}

/// Basic mapping: the basic colour whose reference value is nearest.
pub fn color_mapping_ansi(pixel: Rgb, basic: &[Rgb]) -> (c: TermColor)
    requires
        basic@ == basic_palette(),
    ensures
        c == quantize(ColorMode::Basic8, pixel),
{
    let i = pick_closest_from(pixel, basic);
    proof {
        lemma_nearest_index_is_first_nearest(pixel, basic@);
    }
    match i {
        Some(i) => TermColor::Basic(basic_color_at(i)),
        None => TermColor::Basic(BasicColor::Black),
    }
}

/// 256-colour mapping: the index of the nearest palette entry.
pub fn color_mapping_256(pixel: Rgb, palette: &[Rgb]) -> (c: TermColor)
    requires
        palette@ == indexed256_palette(),
    ensures
        c == quantize(ColorMode::Indexed256, pixel),
{
    let i = pick_closest_from(pixel, palette);
    proof {
        lemma_nearest_index_is_first_nearest(pixel, palette@);
    }
    match i {
        Some(i) => TermColor::Fixed(i as u8),
        None => TermColor::Fixed(0),
    }
}

/// A tier together with the table it matches against, built once and then
/// used for every pixel.
pub struct ColorMapper {
    mode: ColorMode,
    palette: Vec<Rgb>,
}

impl ColorMapper {
    /// The tier this mapper maps to.
    pub closed spec fn mode_of(&self) -> ColorMode {
        self.mode
    }

    /// The table is the tier's table.
    pub closed spec fn wf(&self) -> bool {
        self.palette@ == mode_palette(self.mode)
    }

    /// A mapper for `mode`, with its table built.
    pub fn new(mode: ColorMode) -> (m: Self)
        ensures
            m.wf(),
            m.mode_of() == mode,
    {
        let palette = match mode {
            ColorMode::TrueColor => Vec::new(),
            ColorMode::Indexed256 => indexed256_table(),
            ColorMode::Basic8 => basic_table(),
        };
        assert(palette@ =~= mode_palette(mode));
        ColorMapper { mode, palette }
    }

    /// The tier this mapper maps to.
    pub fn color_mode(&self) -> (r: ColorMode)
        ensures
            r == self.mode_of(),
    {
        self.mode
    }

    /// The colour the mapper's tier shows for `rgb`.
    pub fn map_color(&self, rgb: Rgb) -> (c: TermColor)
        requires
            self.wf(),
        ensures
            c == quantize(self.mode_of(), rgb),
    {
        match self.mode {
            ColorMode::TrueColor => color_mapping_truecolor(rgb),
            ColorMode::Indexed256 => color_mapping_256(rgb, self.palette.as_slice()),
            ColorMode::Basic8 => color_mapping_ansi(rgb, self.palette.as_slice()),
        }
    }
}

proof fn lemma_zero_distance_means_equal(a: Rgb, b: Rgb)
    requires
        sq_dist(a, b) == 0,
    ensures
        a == b,
{
    assert(forall|x: int| #[trigger] (x * x) >= 0) by (nonlinear_arith);
    assert(a.0 == b.0) by (nonlinear_arith)
        requires
            (a.0 as int - b.0 as int) * (a.0 as int - b.0 as int) == 0,
    ;
    assert(a.1 == b.1) by (nonlinear_arith)
        requires
            (a.1 as int - b.1 as int) * (a.1 as int - b.1 as int) == 0,
    ;
    assert(a.2 == b.2) by (nonlinear_arith)
        requires
            (a.2 as int - b.2 as int) * (a.2 as int - b.2 as int) == 0,
    ;
}

proof fn lemma_self_distance_zero(a: Rgb)
    ensures
        sq_dist(a, a) == 0,
{
}

/// In a table, the scan for the value of entry `k` ends on an entry equal
/// to it.
proof fn lemma_table_entry_is_fixed(table: Seq<Rgb>, k: int)
    requires
        0 <= k < table.len(),
    ensures
        table[nearest_index(table[k], table)] == table[k],
{
    let j = nearest_index(table[k], table);
    lemma_nearest_index_is_first_nearest(table[k], table);
    lemma_self_distance_zero(table[k]);
    assert(sq_dist(table[k], table[j]) <= sq_dist(table[k], table[k]));
    lemma_zero_distance_means_equal(table[k], table[j]);
}

/// Quantizing the value of a colour that a tier can produce gives back a
/// colour with that same value, at distance 0.
pub proof fn lemma_quantize_exact_entry(mode: ColorMode, c: TermColor)
    requires
        representable(mode, c),
    ensures
        color_rgb(quantize(mode, color_rgb(c))) == color_rgb(c),
        sq_dist(color_rgb(c), color_rgb(quantize(mode, color_rgb(c)))) == 0,
{
    match c {
        TermColor::Fixed(n) => {
            let table = indexed256_palette();
            lemma_table_entry_is_fixed(table, n as int);
            lemma_nearest_index_is_first_nearest(color_rgb(c), table);
        },
        TermColor::Basic(b) => {
            let table = basic_palette();
            assert(table[basic_index(b) as int] == basic_reference_rgb(b));
            lemma_table_entry_is_fixed(table, basic_index(b) as int);
            lemma_nearest_index_is_first_nearest(color_rgb(c), table);
        },
        TermColor::Rgb(_, _, _) => {},
    }
    lemma_self_distance_zero(color_rgb(c));
}

/// Quantizing is idempotent: quantizing the value of a quantized colour gives
/// the same colour.
pub proof fn lemma_requantize_is_noop(mode: ColorMode, rgb: Rgb)
    ensures
        representable(mode, quantize(mode, rgb)),
        quantize(mode, color_rgb(quantize(mode, rgb))) == quantize(mode, rgb),
{
    match mode {
        ColorMode::Indexed256 => {
            let table = indexed256_palette();
            lemma_nearest_index_is_first_nearest(rgb, table);
            lemma_table_entry_is_fixed_from(table, rgb);
        },
        ColorMode::Basic8 => {
            let table = basic_palette();
            lemma_nearest_index_is_first_nearest(rgb, table);
            lemma_table_entry_is_fixed_from(table, rgb);
        },
        ColorMode::TrueColor => {},
    }
}

/// The scan for the value of the entry it chose for `rgb` chooses that
/// entry again.
proof fn lemma_table_entry_is_fixed_from(table: Seq<Rgb>, rgb: Rgb)
    requires
        table.len() > 0,
    ensures
        nearest_index(table[nearest_index(rgb, table)], table) == nearest_index(rgb, table),
{
    let j = nearest_index(rgb, table);
    lemma_nearest_index_is_first_nearest(rgb, table);
    let j2 = nearest_index(table[j], table);
    lemma_nearest_index_is_first_nearest(table[j], table);
    lemma_self_distance_zero(table[j]);
    assert(sq_dist(table[j], table[j2]) <= sq_dist(table[j], table[j]));
    lemma_zero_distance_means_equal(table[j], table[j2]);
    if j2 < j {
        assert(sq_dist(rgb, table[j]) < sq_dist(rgb, table[j2]));
    } else if j < j2 {
        assert(sq_dist(table[j], table[j2]) < sq_dist(table[j], table[j]));
    }
}

} // verus!
