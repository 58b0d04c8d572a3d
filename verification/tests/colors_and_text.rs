use sidebar::color::{parse_color_spec, parse_hex_color, parse_rgb_func, ColorSpec};
use sidebar::layout::calculate_visible_range;
use sidebar::style::{truncate_string, InlineStyle, StyledText};

fn style(fg: ColorSpec, bg: ColorSpec, bold: bool, dim: bool, fill: bool) -> InlineStyle {
    InlineStyle { fg, bg, bold, dim, fill }
}

fn texts(t: &StyledText) -> Vec<String> {
    t.segments.iter().map(|s| s.text.clone()).collect()
}

#[test]
fn foreground_escapes() {
    assert_eq!(ColorSpec::Default.to_ansi_fg(), "");
    assert_eq!(ColorSpec::EightBit(238).to_ansi_fg(), "\x1b[38;5;238m");
    assert_eq!(ColorSpec::Rgb(1, 22, 255).to_ansi_fg(), "\x1b[38;2;1;22;255m");
}

#[test]
fn background_escapes() {
    assert_eq!(ColorSpec::Default.to_ansi_bg(), "");
    assert_eq!(ColorSpec::EightBit(0).to_ansi_bg(), "\x1b[48;5;0m");
    assert_eq!(ColorSpec::Rgb(10, 0, 7).to_ansi_bg(), "\x1b[48;2;10;0;7m");
}

#[test]
fn default_color_is_default() {
    assert!(ColorSpec::Default.is_default());
    assert!(!ColorSpec::EightBit(0).is_default());
    assert!(!ColorSpec::Rgb(0, 0, 0).is_default());
}

#[test]
fn hex_colors() {
    assert_eq!(parse_color_spec("#444"), ColorSpec::Rgb(68, 68, 68));
    assert_eq!(parse_color_spec("#444444"), ColorSpec::Rgb(68, 68, 68));
    assert_eq!(parse_color_spec("  #Ff0080 "), ColorSpec::Rgb(255, 0, 128));
    assert_eq!(parse_color_spec("#abc"), parse_color_spec("#aabbcc"));
}

#[test]
fn bad_hex_colors_fall_back_to_names() {
    assert_eq!(parse_color_spec("#12"), ColorSpec::Default);
    assert_eq!(parse_color_spec("#ggg"), ColorSpec::Default);
    assert_eq!(parse_color_spec("#1234567"), ColorSpec::Default);
}

#[test]
fn hex_digits() {
    assert_eq!(parse_hex_color("abc"), Some((170, 187, 204)));
    assert_eq!(parse_hex_color("0a0B0c"), Some((10, 11, 12)));
    assert_eq!(parse_hex_color("12345"), None);
    assert_eq!(parse_hex_color("zzz"), None);
    assert_eq!(parse_hex_color("+a0000"), Some((10, 0, 0)));
    assert_eq!(parse_hex_color("+ab"), None);
}

#[test]
fn rgb_function() {
    assert_eq!(parse_rgb_func("10,20,30"), Some((10, 20, 30)));
    assert_eq!(parse_rgb_func(" 1 , 2 ,\t3 "), Some((1, 2, 3)));
    assert_eq!(parse_rgb_func("1,2"), None);
    assert_eq!(parse_rgb_func("1,2,3,4"), None);
    assert_eq!(parse_rgb_func("1,2,300"), None);
    assert_eq!(parse_color_spec("rgb(1, 2,3)"), ColorSpec::Rgb(1, 2, 3));
    assert_eq!(parse_color_spec("rgb(1,2)"), ColorSpec::Default);
}

#[test]
fn palette_indexes() {
    assert_eq!(parse_color_spec("238"), ColorSpec::EightBit(238));
    assert_eq!(parse_color_spec(" 0 "), ColorSpec::EightBit(0));
    assert_eq!(parse_color_spec("+5"), ColorSpec::EightBit(5));
    assert_eq!(parse_color_spec("256"), ColorSpec::Default);
}

#[test]
fn named_colors_ignore_case() {
    assert_eq!(parse_color_spec("accent"), ColorSpec::EightBit(39));
    assert_eq!(parse_color_spec("Accent"), ColorSpec::EightBit(39));
    assert_eq!(parse_color_spec("PRIMARY"), ColorSpec::EightBit(39));
    assert_eq!(parse_color_spec("secondary"), ColorSpec::EightBit(75));
    assert_eq!(parse_color_spec("tertiary"), ColorSpec::EightBit(141));
    assert_eq!(parse_color_spec("muted"), ColorSpec::EightBit(245));
    assert_eq!(parse_color_spec("dimmed"), ColorSpec::EightBit(240));
    assert_eq!(parse_color_spec("black"), ColorSpec::EightBit(0));
    assert_eq!(parse_color_spec("warning"), ColorSpec::EightBit(196));
    assert_eq!(parse_color_spec("ok"), ColorSpec::EightBit(82));
    assert_eq!(parse_color_spec("yellow"), ColorSpec::EightBit(226));
    assert_eq!(parse_color_spec("blue"), ColorSpec::EightBit(33));
    assert_eq!(parse_color_spec("magenta"), ColorSpec::EightBit(201));
    assert_eq!(parse_color_spec("cyan"), ColorSpec::EightBit(51));
    assert_eq!(parse_color_spec("white"), ColorSpec::EightBit(15));
    assert_eq!(parse_color_spec("orange"), ColorSpec::EightBit(208));
    assert_eq!(parse_color_spec("GREY"), ColorSpec::EightBit(244));
    assert_eq!(parse_color_spec("pink"), ColorSpec::EightBit(213));
    assert_eq!(parse_color_spec("purple"), ColorSpec::EightBit(135));
    assert_eq!(parse_color_spec("reset"), ColorSpec::Default);
    assert_eq!(parse_color_spec("no such colour"), ColorSpec::Default);
}

#[test]
fn hex_text_cut_inside_a_character_is_no_colour() {
    assert_eq!(parse_color_spec("#éa"), ColorSpec::Default);
    assert_eq!(parse_color_spec("#é1"), ColorSpec::Default);
    assert_eq!(parse_color_spec("#a€bc"), ColorSpec::Default);
    assert_eq!(parse_color_spec("#ab€"), ColorSpec::Default);
    assert_eq!(parse_color_spec("#é"), ColorSpec::Default);
    assert_eq!(parse_hex_color("éa"), None);
    assert_eq!(parse_hex_color("a€bc"), None);
}

#[test]
fn style_escapes() {
    assert_eq!(InlineStyle::default().to_ansi(), "");
    let s = style(ColorSpec::EightBit(1), ColorSpec::Rgb(2, 3, 4), true, true, false);
    assert_eq!(s.to_ansi(), "\x1b[1m\x1b[2m\x1b[38;5;1m\x1b[48;2;2;3;4m");
}

#[test]
fn style_presence() {
    assert!(!InlineStyle::default().has_any_style());
    assert!(style(ColorSpec::Default, ColorSpec::Default, false, false, true).has_any_style());
    assert!(style(ColorSpec::Default, ColorSpec::EightBit(3), false, false, false).has_any_style());
}

#[test]
fn styled_text_drops_empty_pieces() {
    let mut t = StyledText::new();
    t.push(String::new(), InlineStyle::default());
    t.push("ab".to_string(), InlineStyle::default());
    assert_eq!(texts(&t), vec!["ab".to_string()]);
    assert_eq!(t.segments[0].display_width(), 2);
}

#[test]
fn styled_text_width() {
    let mut t = StyledText::new();
    t.push("ab".to_string(), InlineStyle::default());
    t.push("中".to_string(), InlineStyle::default());
    assert_eq!(t.display_width(), Some(4));
}

#[test]
fn styled_text_rendering() {
    let mut plain = StyledText::new();
    plain.push("a".to_string(), InlineStyle::default());
    plain.push("b".to_string(), InlineStyle::default());
    assert_eq!(plain.to_ansi(), "ab");

    let mut t = StyledText::new();
    t.push("a".to_string(), InlineStyle::default());
    t.push("b".to_string(), style(ColorSpec::EightBit(9), ColorSpec::Default, true, false, false));
    assert_eq!(t.to_ansi(), "a\x1b[0m\x1b[1m\x1b[38;5;9mb\x1b[0m");
}

#[test]
fn styled_text_truncation() {
    let bold = style(ColorSpec::Default, ColorSpec::Default, true, false, false);
    let mut t = StyledText::new();
    t.push("hello".to_string(), InlineStyle::default());
    t.push("world".to_string(), bold);
    let cut = t.truncate(7).unwrap();
    assert_eq!(texts(&cut), vec!["hello".to_string(), "wo".to_string()]);
    assert_eq!(cut.segments[1].style, bold);
    assert_eq!(texts(&t.truncate(5).unwrap()), vec!["hello".to_string()]);
    assert_eq!(texts(&t.truncate(100).unwrap()), vec!["hello".to_string(), "world".to_string()]);
    assert_eq!(texts(&t.truncate(0).unwrap()), Vec::<String>::new());
}

#[test]
fn wide_characters_are_not_split() {
    let mut t = StyledText::new();
    t.push("a中b".to_string(), InlineStyle::default());
    assert_eq!(texts(&t.truncate(2).unwrap()), vec!["a".to_string()]);
    assert_eq!(texts(&t.truncate(3).unwrap()), vec!["a中".to_string()]);
}

#[test]
fn string_truncation() {
    assert_eq!(truncate_string("hello world", 8), "hello...");
    assert_eq!(truncate_string("hello", 5), "hello");
    assert_eq!(truncate_string("hello", 4), "h...");
    assert_eq!(truncate_string("hello", 3), "...");
    assert_eq!(truncate_string("hello", 2), "..");
    assert_eq!(truncate_string("hello", 0), "");
    assert_eq!(truncate_string("", 0), "");
    assert_eq!(truncate_string("中文字", 5), "中...");
}

#[test]
fn all_tabs_fit() {
    assert_eq!(calculate_visible_range(0, 5, 0), (0, 0, 0, 0));
    assert_eq!(calculate_visible_range(3, 5, 2), (0, 3, 0, 0));
    assert_eq!(calculate_visible_range(5, 5, 4), (0, 5, 0, 0));
}

#[test]
fn too_few_rows_show_only_markers() {
    assert_eq!(calculate_visible_range(10, 2, 5), (0, 0, 10, 0));
    assert_eq!(calculate_visible_range(10, 0, 0), (0, 0, 10, 0));
}

#[test]
fn window_grows_around_the_active_tab() {
    assert_eq!(calculate_visible_range(10, 5, 0), (0, 3, 0, 7));
    assert_eq!(calculate_visible_range(10, 5, 9), (7, 10, 7, 0));
    assert_eq!(calculate_visible_range(10, 6, 5), (3, 7, 3, 3));
    assert_eq!(calculate_visible_range(10, 3, 4), (4, 5, 4, 5));
}

#[test]
fn window_fits_its_rows() {
    for rows in 3..12 {
        for active in 0..10 {
            let (s, e, above, below) = calculate_visible_range(10, rows, active);
            let used = usize::from(above > 0) + (e - s) + usize::from(below > 0);
            assert!(used <= rows);
            assert!(s <= active && active < e);
            assert_eq!(above, s);
            assert_eq!(below, 10 - e);
        }
    }
}
