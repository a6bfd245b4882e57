use vault_tasks::style::{
    color_fails_exec, parse_color, parse_style, process_color_string, try_parse_style, Color, Modifier, Style,
};

#[test]
fn test_parse_style_default() {
    let style = parse_style("");
    assert_eq!(style, Style::default());
}

#[test]
fn test_parse_style_foreground() {
    let style = parse_style("red");
    assert_eq!(style.fg, Some(Color::Indexed(1)));
}

#[test]
fn test_parse_style_background() {
    let style = parse_style("on blue");
    assert_eq!(style.bg, Some(Color::Indexed(4)));
}

#[test]
fn test_parse_style_modifiers() {
    let style = parse_style("underline red on blue");
    assert_eq!(style.fg, Some(Color::Indexed(1)));
    assert_eq!(style.bg, Some(Color::Indexed(4)));
}

#[test]
fn test_process_color_string() {
    let (color, modifiers) = process_color_string("underline bold inverse gray");
    assert_eq!(color, "gray");
    assert!(modifiers.contains(Modifier::underlined()));
    assert!(modifiers.contains(Modifier::bold()));
    assert!(modifiers.contains(Modifier::reversed()));
}

#[test]
fn test_parse_color_rgb() {
    let color = parse_color("rgb 255 000 128");
    assert_eq!(color, Some(Color::Rgb(255, 0, 128)));
}

#[test]
fn test_parse_color_unknown() {
    let color = parse_color("unknown");
    assert_eq!(color, None);
}

#[test]
fn style_modifiers_of_both_sides() {
    let style = parse_style("underline red on bold blue");
    assert_eq!(style.fg, Some(Color::Indexed(1)));
    assert_eq!(style.bg, Some(Color::Indexed(4)));
    assert_eq!(style.add_modifier, Modifier::underlined().union(Modifier::bold()));
    assert_eq!(style.sub_modifier, Modifier::empty());
}

#[test]
fn style_bold_colors_are_bright() {
    assert_eq!(parse_style("bold red").fg, Some(Color::Indexed(1)));
    assert_eq!(parse_style("bold red").add_modifier, Modifier::bold());
    assert_eq!(parse_color("bold white"), Some(Color::Indexed(15)));
    assert_eq!(parse_color("  white  "), Some(Color::Indexed(7)));
}

#[test]
fn style_indexed_and_gray_colors() {
    assert_eq!(parse_color("color200"), Some(Color::Indexed(200)));
    assert_eq!(parse_color("bright color7"), Some(Color::Indexed(7)));
    assert_eq!(parse_color("color"), Some(Color::Indexed(0)));
    assert_eq!(parse_color("color999"), Some(Color::Indexed(0)));
    assert_eq!(parse_color("gray3"), Some(Color::Indexed(235)));
    assert_eq!(parse_color("gray"), Some(Color::Indexed(232)));
    assert_eq!(process_color_string("grey5").0, "gray5");
    assert_eq!(parse_style("grey5 on bright color3").fg, Some(Color::Indexed(237)));
    assert_eq!(parse_style("grey5 on bright color3").bg, Some(Color::Indexed(3)));
}

#[test]
fn style_rgb_in_any_case() {
    assert_eq!(parse_color("RGB 1 2 +3"), Some(Color::Rgb(1, 2, 3)));
    assert_eq!(parse_color("rgb 1 x 300"), Some(Color::Rgb(1, 0, 0)));
}

#[test]
fn style_colors_that_fail() {
    assert!(color_fails_exec("gray24"));
    assert!(!color_fails_exec("gray23"));
    assert_eq!(parse_color("gray23"), Some(Color::Indexed(255)));
    assert!(color_fails_exec("rgb 1 2"));
    assert!(!color_fails_exec("rgb 1 2 3"));
    assert!(!color_fails_exec("nothing"));
    assert_eq!(try_parse_style("gray30"), None);
    assert_eq!(try_parse_style("red on rgb 1"), None);
}

#[test]
fn style_split_is_case_blind_but_on_is_dropped_only_in_lowercase() {
    let style = parse_style("red ON blue");
    assert_eq!(style.fg, Some(Color::Indexed(1)));
    assert_eq!(style.bg, None);
}

#[test]
fn style_split_inside_a_character_fails() {
    assert_eq!(try_parse_style("\u{23a}\u{23a}\u{23a}\u{23a}on \u{20ac}"), None);
    let ok = try_parse_style("\u{23a}on blue");
    assert!(ok.is_some());
    assert_eq!(try_parse_style("red on blue"), Some(parse_style("red on blue")));
}
