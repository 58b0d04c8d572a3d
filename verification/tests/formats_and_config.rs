use sidebar::color::ColorSpec;
use sidebar::commands::{command_requests, default_period, install_command, tick_commands, CommandDef, TickPeriod};
use sidebar::config::{input_mode_key, InputMode, RenderTier, StyleConfig};
use sidebar::format::{parse_style_directive, parse_styled_string, parse_tmux_format, parse_variable, FormatToken};
use sidebar::style::InlineStyle;

fn token(t: &FormatToken) -> String {
    match t {
        FormatToken::Style(_) => "style".to_string(),
        FormatToken::Literal(l) => format!("lit:{}", l),
        FormatToken::Variable { name, width: Some(w) } => format!("var:{}:{}", name, w),
        FormatToken::Variable { name, width: None } => format!("var:{}", name),
    }
}

fn tokens(s: &str) -> Vec<String> {
    parse_tmux_format(s).iter().map(token).collect()
}

fn entries(pairs: &[(&str, &str)]) -> Vec<(String, String)> {
    pairs.iter().map(|(k, v)| (k.to_string(), v.to_string())).collect()
}

#[test]
fn variables_and_literals() {
    assert_eq!(tokens("{index}:{name}"), vec!["var:index", "lit::", "var:name"]);
    assert_eq!(tokens(""), Vec::<String>::new());
    assert_eq!(tokens("a#b"), vec!["lit:a#b"]);
    assert_eq!(tokens("ab#"), vec!["lit:ab#"]);
}

#[test]
fn directives_and_hash_variables() {
    let t = parse_tmux_format("#[fg=red,bold]x#{=5:title}y");
    assert_eq!(t.iter().map(token).collect::<Vec<_>>(), vec!["style", "lit:x", "var:title:5", "lit:y"]);
    match &t[0] {
        FormatToken::Style(st) => {
            assert_eq!(st.fg, ColorSpec::EightBit(196));
            assert!(st.bold);
            assert!(!st.dim);
        }
        _ => panic!("expected a style"),
    }
}

#[test]
fn unterminated_pieces_run_to_the_end() {
    assert_eq!(tokens("{open"), vec!["var:open"]);
    assert_eq!(tokens("#[bold"), vec!["style"]);
    assert_eq!(tokens("{=x:name}"), vec!["var:=x:name"]);
}

#[test]
fn variable_widths() {
    let v: Vec<char> = "=12:name".chars().collect();
    assert_eq!(token(&parse_variable(&v)), "var:name:12");
    let v: Vec<char> = "=12name".chars().collect();
    assert_eq!(token(&parse_variable(&v)), "var:=12name");
    let v: Vec<char> = "=:x".chars().collect();
    assert_eq!(token(&parse_variable(&v)), "var:=:x");
    let v: Vec<char> = "=+3:x".chars().collect();
    assert_eq!(token(&parse_variable(&v)), "var:x:3");
    let v: Vec<char> = "plain".chars().collect();
    assert_eq!(token(&parse_variable(&v)), "var:plain");
}

#[test]
fn style_directives() {
    let st = parse_style_directive("fg=#fff, bg=238 ,dim,fill");
    assert_eq!(
        st,
        InlineStyle { fg: ColorSpec::Rgb(255, 255, 255), bg: ColorSpec::EightBit(238), bold: false, dim: true, fill: true }
    );
    assert_eq!(parse_style_directive("bold,reset"), InlineStyle::default());
    assert_eq!(parse_style_directive("fg=red,none"), InlineStyle::default());
    let bold = parse_style_directive("reset,bold");
    assert!(bold.bold);
    assert_eq!(bold.fg, ColorSpec::Default);
    assert_eq!(parse_style_directive("unknown"), InlineStyle::default());
    assert_eq!(parse_style_directive(""), InlineStyle::default());
    assert_eq!(parse_style_directive("fg="), InlineStyle::default());
}

#[test]
fn styled_strings() {
    let t = parse_styled_string("#[fg=240]│");
    assert_eq!(t.segments.len(), 1);
    assert_eq!(t.segments[0].text, "│");
    assert_eq!(t.segments[0].style.fg, ColorSpec::EightBit(240));

    let t = parse_styled_string("a{x}b");
    let texts: Vec<String> = t.segments.iter().map(|s| s.text.clone()).collect();
    assert_eq!(texts, vec!["a", "{x}", "b"]);

    let t = parse_styled_string("#[bold]#[dim]z");
    assert_eq!(t.segments.len(), 1);
    assert!(t.segments[0].style.dim);
    assert!(!t.segments[0].style.bold);
}

#[test]
fn plain_text_renders_unchanged() {
    let t = parse_styled_string("just text");
    assert_eq!(t.to_ansi(), "just text");
}

#[test]
fn colours_cut_inside_a_character_are_default() {
    assert_eq!(parse_style_directive("fg=#é1,bold").fg, ColorSpec::Default);
    assert!(parse_style_directive("fg=#é1,bold").bold);
    let t = parse_styled_string("x#[bg=#a€bc]y");
    let texts: Vec<String> = t.segments.iter().map(|s| s.text.clone()).collect();
    assert_eq!(texts, vec!["x", "y"]);
    assert_eq!(t.segments[1].style, InlineStyle::default());
    assert_eq!(tokens("#é1"), vec!["lit:#é1"]);
}

#[test]
fn tiers_follow_width() {
    let cfg = StyleConfig::default();
    assert_eq!(cfg.render_tier(10), RenderTier::Minimal);
    assert_eq!(cfg.render_tier(12), RenderTier::Compact);
    assert_eq!(cfg.render_tier(17), RenderTier::Compact);
    assert_eq!(cfg.render_tier(18), RenderTier::Full);
}

#[test]
fn footer_formats_fall_back_to_full() {
    let mut cfg = StyleConfig::default();
    cfg.format_footer = "F".to_string();
    assert_eq!(cfg.active_footer_format(RenderTier::Compact).as_str(), "F");
    assert_eq!(cfg.active_footer_format(RenderTier::Minimal).as_str(), "F");
    cfg.format_footer_compact = "C".to_string();
    cfg.format_footer_minimal = "M".to_string();
    assert_eq!(cfg.active_footer_format(RenderTier::Compact).as_str(), "C");
    assert_eq!(cfg.active_footer_format(RenderTier::Minimal).as_str(), "M");
    assert_eq!(cfg.active_footer_format(RenderTier::Full).as_str(), "F");
}

#[test]
fn default_mode_labels() {
    let cfg = StyleConfig::default();
    assert_eq!(cfg.mode_display(InputMode::Normal, RenderTier::Full), ("NORMAL".to_string(), None));
    assert_eq!(cfg.mode_display(InputMode::Tab, RenderTier::Compact), ("TAB".to_string(), None));
    assert_eq!(cfg.mode_display(InputMode::EnterSearch, RenderTier::Minimal), ("?".to_string(), None));
    assert_eq!(cfg.mode_display(InputMode::Session, RenderTier::Compact), ("SES".to_string(), None));
}

#[test]
fn mode_keys() {
    assert_eq!(input_mode_key(InputMode::Normal), "normal");
    assert_eq!(input_mode_key(InputMode::EnterSearch), "entersearch");
    assert_eq!(input_mode_key(InputMode::RenamePane), "renamepane");
    assert_eq!(input_mode_key(InputMode::Tmux), "tmux");
}

#[test]
fn configuration_entries() {
    let mut cfg = StyleConfig::default();
    cfg.apply_entries(&entries(&[
        ("format", "{i}"),
        ("max_name_length", "7"),
        ("padding_top", "x"),
        ("border_char", "|"),
        ("mode_normal", "N!"),
        ("mode_normal_minimal", "n"),
        ("mode_color_normal", "red"),
        ("compact_threshold", "30"),
    ]));
    assert_eq!(cfg.format, "{i}");
    assert_eq!(cfg.format_active, "{index}:{name} {indicators}");
    assert_eq!(cfg.max_name_length, 7);
    assert_eq!(cfg.padding_top, 0);
    assert_eq!(cfg.border, "|");
    assert_eq!(cfg.compact_threshold, 30);
    assert_eq!(cfg.minimal_threshold, 12);
    assert_eq!(cfg.mode_display(InputMode::Normal, RenderTier::Full), ("N!".to_string(), Some("red".to_string())));
    assert_eq!(cfg.mode_display(InputMode::Normal, RenderTier::Compact), ("NRM".to_string(), Some("red".to_string())));
    assert_eq!(cfg.mode_display(InputMode::Normal, RenderTier::Minimal), ("n".to_string(), Some("red".to_string())));
}

#[test]
fn border_wins_over_border_char() {
    let mut cfg = StyleConfig::default();
    cfg.apply_entries(&entries(&[("border", "#[fg=240]│"), ("border_char", "|")]));
    assert_eq!(cfg.border, "#[fg=240]│");
}

#[test]
fn declared_commands() {
    let reqs = command_requests(&entries(&[
        ("command_b_command", "echo b"),
        ("command_a_command", "date"),
        ("command_a_interval", "5"),
        ("other", "x"),
        ("command_c_interval", "3"),
    ]));
    assert_eq!(reqs.len(), 2);
    assert_eq!(reqs[0].name, "a");
    assert_eq!(reqs[0].command, "date");
    assert_eq!(reqs[0].interval, Some("5".to_string()));
    assert_eq!(reqs[1].name, "b");
    assert_eq!(reqs[1].command, "echo b");
    assert_eq!(reqs[1].interval, None);
}

#[test]
fn commands_run_at_once_then_every_period() {
    let mut cmds: Vec<CommandDef> = Vec::new();
    install_command(&mut cmds, "a".to_string(), "x".to_string(), TickPeriod::Every(2));
    let names = |d: Vec<(String, String)>| d.into_iter().map(|(n, _)| n).collect::<Vec<_>>();
    assert_eq!(tick_commands(&mut cmds), vec![("a".to_string(), "x".to_string())]);
    assert!(tick_commands(&mut cmds).is_empty());
    assert_eq!(names(tick_commands(&mut cmds)), vec!["a"]);
    assert!(tick_commands(&mut cmds).is_empty());
    assert_eq!(names(tick_commands(&mut cmds)), vec!["a"]);
}

#[test]
fn commands_that_never_run() {
    let mut cmds: Vec<CommandDef> = Vec::new();
    install_command(&mut cmds, "n".to_string(), "x".to_string(), TickPeriod::Never);
    for _ in 0..5 {
        assert!(tick_commands(&mut cmds).is_empty());
    }
    assert_eq!(cmds[0].elapsed, 0);
}

#[test]
fn commands_stay_sorted_and_unique() {
    let mut cmds: Vec<CommandDef> = Vec::new();
    install_command(&mut cmds, "b".to_string(), "1".to_string(), TickPeriod::Every(1));
    install_command(&mut cmds, "a".to_string(), "2".to_string(), TickPeriod::Every(3));
    install_command(&mut cmds, "b".to_string(), "3".to_string(), TickPeriod::Every(4));
    let names: Vec<String> = cmds.iter().map(|c| c.name.clone()).collect();
    assert_eq!(names, vec!["a", "b"]);
    assert_eq!(cmds[1].command, "3");
    assert_eq!(cmds[1].elapsed, 4);
}

#[test]
fn commands_without_interval_run_every_thirty_ticks() {
    assert_eq!(default_period(), TickPeriod::Every(30));
}
