use ansi_image::quantize::ColorMode;
use ansi_image::render::{PixelGrid, VerticalAlignment};
use ansi_image::script::{
    choice_from_lowercase, parse_color_choice, print_script, render_auto_script, render_document,
    render_script, ColorChoice,
};

fn red_over_clear() -> PixelGrid {
    PixelGrid::new(1, 2, vec![255, 0, 0, 255, 0, 0, 0, 0]).unwrap()
}

#[test]
fn documents_for_each_tier() {
    let image = red_over_clear();
    let align = VerticalAlignment::PadTop;
    assert_eq!(
        render_document(&image, align, ColorMode::TrueColor),
        "\u{1b}[38;2;255;0;0m\u{2580}\u{1b}[0m\n"
    );
    assert_eq!(
        render_document(&image, align, ColorMode::Indexed256),
        "\u{1b}[38;5;9m\u{2580}\u{1b}[0m\n"
    );
    assert_eq!(render_document(&image, align, ColorMode::Basic8), "\u{1b}[31m\u{2580}\u{1b}[0m\n");
}

#[test]
fn print_statement_escapes_the_document() {
    assert_eq!(print_script(&"\u{1b}[31mX\u{1b}[0m\n".to_string()), "echo -ne \"\\e[31mX\\e[0m\\n\"\n");
}

#[test]
fn fixed_choice_gives_one_print_statement() {
    let image = red_over_clear();
    let script = render_script(&image, VerticalAlignment::PadTop, ColorChoice::Fixed(ColorMode::Basic8));
    assert_eq!(script, "echo -ne \"\\e[31m\\u2580\\e[0m\\n\"\n");
}

#[test]
fn auto_script_embeds_three_prerendered_documents() {
    let image = red_over_clear();
    let script = render_auto_script(&image, VerticalAlignment::PadTop);
    let expected = [
        "if [ \"$COLORTERM\" = \"truecolor\" ] || [ \"$COLORTERM\" = \"24bit\" ]; then\n",
        "echo -ne \"\\e[38;2;255;0;0m\\u2580\\e[0m\\n\"\n",
        "elif [ \"$(tput colors 2>/dev/null)\" -ge 256 ] 2>/dev/null; then\n",
        "echo -ne \"\\e[38;5;9m\\u2580\\e[0m\\n\"\n",
        "else\n",
        "echo -ne \"\\e[31m\\u2580\\e[0m\\n\"\n",
        "fi\n",
    ]
    .join("");
    assert_eq!(script, expected);
    assert_eq!(script.matches("echo -ne").count(), 3);
    assert_eq!(render_script(&image, VerticalAlignment::PadTop, ColorChoice::Auto), expected);
}

#[test]
fn auto_script_on_a_larger_image_has_three_branches() {
    let mut data = Vec::new();
    for i in 0..(5u32 * 3) {
        data.extend_from_slice(&[(i * 17) as u8, (i * 5) as u8, 200, if i % 4 == 0 { 0 } else { 255 }]);
    }
    let image = PixelGrid::new(5, 3, data).unwrap();
    let script = render_auto_script(&image, VerticalAlignment::PadBottom);
    assert_eq!(script.matches("echo -ne").count(), 3);
    assert!(script.starts_with("if "));
    assert_eq!(script.matches("\nelif ").count(), 1);
    assert_eq!(script.matches("\nelse\n").count(), 1);
    assert!(script.ends_with("\nfi\n"));
}

#[test]
fn colour_names_parse_in_any_case() {
    assert_eq!(parse_color_choice("TrueColor"), Some(ColorChoice::Fixed(ColorMode::TrueColor)));
    assert_eq!(parse_color_choice("ANSI"), Some(ColorChoice::Fixed(ColorMode::Basic8)));
    assert_eq!(parse_color_choice("256"), Some(ColorChoice::Fixed(ColorMode::Indexed256)));
    assert_eq!(parse_color_choice("Auto"), Some(ColorChoice::Auto));
    assert_eq!(parse_color_choice("sixteen"), None);
    assert_eq!(parse_color_choice(""), None);
    assert_eq!(choice_from_lowercase("auto"), Some(ColorChoice::Auto));
    assert_eq!(choice_from_lowercase("AUTO"), None);
}
