//! Putting the pipeline together: a rendered document for one colour tier,
//! a shell statement that prints it, and a script that picks among the three
//! tiers when it runs.
use vstd::prelude::*;
use crate::bash_syntax::{escape_for_string_content, escaped, write_with_minimal_control_sequences};
use crate::quantize::{ColorMapper, ColorMode};
use crate::render::{image_to_ascii, image_spans, PixelGrid, VerticalAlignment};
use crate::style::{emit_pieces, pieces_text};

verus! {

/// The colour choice of a run: one fixed tier, or a script that picks the
/// tier from the terminal when it runs.
#[derive(Clone, Copy, Debug, PartialEq, Eq, Structural)]
pub enum ColorChoice {
    Fixed(ColorMode),
    Auto,
}

/// The text of `image` drawn in the colours of tier `mode`.
pub open spec fn document_text(image: PixelGrid, alignment: VerticalAlignment, mode: ColorMode) -> Seq<
    char,
> {
    pieces_text(emit_pieces(image_spans(image, alignment, mode)))
}

/// A shell statement that prints `document` as it stands.
pub open spec fn print_statement(document: Seq<char>) -> Seq<char> {
    "echo -ne \""@ + escaped(document) + "\"\n"@
}

/// A shell script that prints the true-colour document where `COLORTERM`
/// announces 24-bit colour, else the 256-colour document where `tput colors`
/// reports at least 256 colours, else the basic document.
pub open spec fn auto_script(true_color: Seq<char>, indexed: Seq<char>, basic: Seq<char>) -> Seq<
    char,
> {
    "if [ \"$COLORTERM\" = \"truecolor\" ] || [ \"$COLORTERM\" = \"24bit\" ]; then\n"@
        + print_statement(true_color) + "elif [ \"$(tput colors 2>/dev/null)\" -ge 256 ] 2>/dev/null; then\n"@
        + print_statement(indexed) + "else\n"@ + print_statement(basic) + "fi\n"@
}

/// The text of `image` for a terminal of tier `mode`: its glyph spans written
/// with the fewest escape codes.
pub fn render_document(image: &PixelGrid, alignment: VerticalAlignment, mode: ColorMode) -> (r:
    String)
    requires
        image.wf(),
    ensures
        r@ == document_text(*image, alignment, mode),
{
    let mapper = ColorMapper::new(mode);
    let spans = image_to_ascii(image, alignment, &mapper);
    write_with_minimal_control_sequences(&spans)
}

fn push_print_statement(out: &mut String, document: &String)
    ensures
        final(out)@ == old(out)@ + print_statement(document@),
{
    out.append("echo -ne \"");
    let body = escape_for_string_content(document);
    out.append(body.as_str());
    out.append("\"\n");
    assert(final(out)@ =~= old(out)@ + print_statement(document@));
}

/// A shell statement that prints `document`.
pub fn print_script(document: &String) -> (r: String)
    ensures
        r@ == print_statement(document@),
{
    let mut out = String::new();
    push_print_statement(&mut out, document);
    assert(out@ =~= print_statement(document@));
    out
}

/// A shell script holding `image` rendered in all three tiers, each in full,
/// and choosing which to print from the terminal's signals when it runs.
pub fn render_auto_script(image: &PixelGrid, alignment: VerticalAlignment) -> (r: String)
    requires
        image.wf(),
    ensures
        r@ == auto_script(
            document_text(*image, alignment, ColorMode::TrueColor),
            document_text(*image, alignment, ColorMode::Indexed256),
            document_text(*image, alignment, ColorMode::Basic8),
        ),
{
    let true_color = render_document(image, alignment, ColorMode::TrueColor);
    let indexed = render_document(image, alignment, ColorMode::Indexed256);
    let basic = render_document(image, alignment, ColorMode::Basic8);
    let mut out = String::new();
    out.append("if [ \"$COLORTERM\" = \"truecolor\" ] || [ \"$COLORTERM\" = \"24bit\" ]; then\n");
    push_print_statement(&mut out, &true_color);
    out.append("elif [ \"$(tput colors 2>/dev/null)\" -ge 256 ] 2>/dev/null; then\n");
    push_print_statement(&mut out, &indexed);
    out.append("else\n");
    push_print_statement(&mut out, &basic);
    out.append("fi\n");
    assert(out@ =~= auto_script(true_color@, indexed@, basic@));
    out
}

/// The shell script for a colour choice: a statement printing the one
/// document of a fixed tier, or the script that picks among all three.
pub fn render_script(image: &PixelGrid, alignment: VerticalAlignment, choice: ColorChoice) -> (r:
    String)
    requires
        image.wf(),
    ensures
        choice matches ColorChoice::Fixed(mode) ==> r@ == print_statement(
            document_text(*image, alignment, mode),
        ),
        choice == ColorChoice::Auto ==> r@ == auto_script(
            document_text(*image, alignment, ColorMode::TrueColor),
            document_text(*image, alignment, ColorMode::Indexed256),
            document_text(*image, alignment, ColorMode::Basic8),
        ),
{
    match choice {
        ColorChoice::Fixed(mode) => {
            let document = render_document(image, alignment, mode);
            print_script(&document)
        },
        ColorChoice::Auto => render_auto_script(image, alignment),
    }
}

/// What `str::to_lowercase` makes of a text.
pub uninterp spec fn lower_of(s: Seq<char>) -> Seq<char>;

/// Relies on `str::to_lowercase`: the result depends on the characters of
/// `s` alone.
#[verifier::external_body]
fn lowercase(s: &str) -> (r: String)
    ensures
        r@ == lower_of(s@),
{
    s.to_lowercase()
}

/// The colour choice a lower-case name stands for: `truecolor`, `256`,
/// `ansi` (the basic colours) or `auto`.
pub open spec fn choice_of_name(t: Seq<char>) -> Option<ColorChoice> {
    if t == "truecolor"@ {
        Some(ColorChoice::Fixed(ColorMode::TrueColor))
    } else if t == "ansi"@ {
        Some(ColorChoice::Fixed(ColorMode::Basic8))
    } else if t == "256"@ {
        Some(ColorChoice::Fixed(ColorMode::Indexed256))
    } else if t == "auto"@ {
        Some(ColorChoice::Auto)
    } else {
        None
    }
}

/// The colour choice named by `t`, read exactly as written.
pub fn choice_from_lowercase(t: &str) -> (r: Option<ColorChoice>)
    ensures
        r == choice_of_name(t@),
{
    let t = String::from_str(t);
    if t == String::from_str("truecolor") {
        Some(ColorChoice::Fixed(ColorMode::TrueColor))
    } else if t == String::from_str("ansi") {
        Some(ColorChoice::Fixed(ColorMode::Basic8))
    } else if t == String::from_str("256") {
        Some(ColorChoice::Fixed(ColorMode::Indexed256))
    } else if t == String::from_str("auto") {
        Some(ColorChoice::Auto)
    } else {
        None
    }
}

/// The colour choice named by `s`, in any mix of upper and lower case;
/// `None` for a name that is none of `truecolor`, `ansi`, `256` and `auto`.
pub fn parse_color_choice(s: &str) -> (r: Option<ColorChoice>)
    ensures
        r == choice_of_name(lower_of(s@)),
{
    let lower = lowercase(s);
    choice_from_lowercase(lower.as_str())
}

} // verus!
