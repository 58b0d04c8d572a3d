use sidebar::color::ColorSpec;
use sidebar::commands::TickPeriod;
use sidebar::config::{InputMode, RenderTier, StyleConfig};
use sidebar::model::{ModeInfo, PaneInfo, TabInfo};
use sidebar::render::{
    build_empty_line, build_line, build_plain_line, build_separator_line, expand_generic_format,
    expand_overflow_format, expand_tmux_format, get_focused_pane_title,
};
use sidebar::state::{Action, Event, Mouse, State};
use sidebar::style::{InlineStyle, StyledText};

fn tab(position: usize, name: &str, active: bool) -> TabInfo {
    TabInfo {
        position,
        name: name.to_string(),
        active,
        is_fullscreen_active: false,
        is_sync_panes_active: false,
    }
}

fn pane(plugin: bool, focused: bool, title: &str) -> PaneInfo {
    PaneInfo { is_plugin: plugin, is_focused: focused, title: title.to_string() }
}

fn plain(text: &str) -> StyledText {
    let mut t = StyledText::new();
    t.push(text.to_string(), InlineStyle::default());
    t
}

fn texts(t: &StyledText) -> Vec<String> {
    t.segments.iter().map(|s| s.text.clone()).collect()
}

fn describe(a: &Action) -> String {
    match a {
        Action::SetSelectable(b) => format!("selectable:{}", b),
        Action::SetTimeout => "timeout".to_string(),
        Action::SwitchTab(i) => format!("switch:{}", i),
        Action::RunCommand { name, command } => format!("run:{}:{}", name, command),
    }
}

fn step(s: &mut State, e: Event) -> (bool, Vec<String>) {
    let (render, actions) = s.update(e).unwrap();
    (render, actions.iter().map(describe).collect())
}

fn tabs(names: &[&str], active: usize) -> Vec<TabInfo> {
    names.iter().enumerate().map(|(i, n)| tab(i, n, i == active)).collect()
}

fn granted_state(names: &[&str], active: usize) -> State {
    let mut s = State::new();
    step(&mut s, Event::PermissionRequestResult(true));
    step(&mut s, Event::TabUpdate { tabs: tabs(names, active), changed: true });
    s
}

fn result(name: &str, code: Option<i32>, out: &str) -> Event {
    Event::RunCommandResult {
        exit_code: code,
        stdout: out.as_bytes().to_vec(),
        context: vec![("command_name".to_string(), name.to_string())],
    }
}

#[test]
fn focused_pane_titles() {
    let panes = vec![
        (0, vec![pane(true, true, "plugin"), pane(false, true, "vim")]),
        (1, vec![pane(false, true, "Pane #1")]),
        (2, vec![pane(false, false, "bash")]),
    ];
    assert_eq!(get_focused_pane_title(&panes, 0), Some("vim".to_string()));
    assert_eq!(get_focused_pane_title(&panes, 1), None);
    assert_eq!(get_focused_pane_title(&panes, 2), None);
    assert_eq!(get_focused_pane_title(&panes, 3), None);
}

#[test]
fn tab_entries() {
    let cfg = StyleConfig::default();
    let panes = vec![(0, vec![pane(false, true, "htop")])];
    let mut t = tab(0, "Tab #1", true);
    t.is_fullscreen_active = true;
    let line = expand_tmux_format(&cfg, InputMode::Normal, &panes, "{index}:{name} {indicators}", &t, 1);
    assert_eq!(line.to_ansi(), "1:htop Z*");
    let named = tab(0, "work", false);
    let line = expand_tmux_format(&cfg, InputMode::Normal, &panes, "{i}|{n}|{title}|{active}|{x}", &named, 7);
    assert_eq!(line.to_ansi(), "7|work|htop||{x}");
    let unnamed = tab(5, "Tab #6", false);
    let line = expand_tmux_format(&cfg, InputMode::Normal, &panes, "{name}", &unnamed, 6);
    assert_eq!(line.to_ansi(), "...");
}

#[test]
fn renaming_a_tab_shows_a_prompt() {
    let cfg = StyleConfig::default();
    let panes = Vec::new();
    let t = tab(0, "", true);
    let line = expand_tmux_format(&cfg, InputMode::RenameTab, &panes, "{name}", &t, 1);
    assert_eq!(line.to_ansi(), "Enter name...");
}

#[test]
fn tab_entries_are_cut_to_widths() {
    let mut cfg = StyleConfig::default();
    cfg.max_name_length = 5;
    let panes = Vec::new();
    let t = tab(0, "a long name", false);
    let line = expand_tmux_format(&cfg, InputMode::Normal, &panes, "{name}/{=8:name}", &t, 1);
    assert_eq!(texts(&line), vec!["a ...", "/", "a lon..."]);
}

#[test]
fn header_variables() {
    let cfg = StyleConfig::default();
    let mode = ModeInfo { mode: InputMode::Locked, session_name: Some("abcdef".to_string()) };
    let outputs = vec![("cpu".to_string(), "12%".to_string())];
    let line = expand_generic_format(&cfg, &mode, &outputs, "{session} {mode} {command_cpu} {command_mem} {other}", RenderTier::Full);
    assert_eq!(line.to_ansi(), "abcdef LOCKED 12% -- {other}");
    let line = expand_generic_format(&cfg, &mode, &outputs, "{=3:session}", RenderTier::Compact);
    assert_eq!(line.to_ansi(), "...");
    let nameless = ModeInfo { mode: InputMode::Normal, session_name: None };
    let line = expand_generic_format(&cfg, &nameless, &outputs, "{session}:{mode}", RenderTier::Minimal);
    assert_eq!(line.to_ansi(), "zellij:N");
}

#[test]
fn mode_colour_applies_to_the_mode_only() {
    let mut cfg = StyleConfig::default();
    cfg.mode_colors[0] = Some("#ff0000".to_string());
    let mode = ModeInfo { mode: InputMode::Normal, session_name: Some("s".to_string()) };
    let line = expand_generic_format(&cfg, &mode, &Vec::new(), "#[bold]{session}{mode}", RenderTier::Full);
    assert_eq!(line.segments.len(), 2);
    assert_eq!(line.segments[0].style.fg, ColorSpec::Default);
    assert_eq!(line.segments[1].style.fg, ColorSpec::Rgb(255, 0, 0));
    assert!(line.segments[1].style.bold);
}

#[test]
fn unreadable_mode_colour_is_the_default() {
    let mut cfg = StyleConfig::default();
    cfg.mode_colors[0] = Some("#éa".to_string());
    let mode = ModeInfo { mode: InputMode::Normal, session_name: Some("s".to_string()) };
    let line = expand_generic_format(&cfg, &mode, &Vec::new(), "{mode}", RenderTier::Full);
    assert_eq!(line.to_ansi(), "NORMAL");
}

#[test]
fn unreadable_border_colour_is_the_default() {
    let mut s = granted_state(&["a"], 0);
    s.style.border = "#[fg=#éa]|".to_string();
    s.style.format_header = String::new();
    let lines = s.render(2, 5).unwrap();
    assert_eq!(lines, vec!["1:a |".to_string(), "    |".to_string()]);
}

#[test]
fn lines_are_padded_to_the_width() {
    assert_eq!(build_plain_line(&plain("abc"), 5), Some("abc  ".to_string()));
    assert_eq!(build_plain_line(&plain("abcdef"), 4), Some("abcd".to_string()));
    assert_eq!(build_line("", &plain("ab"), 4, false), Some("ab  ".to_string()));
    assert_eq!(build_line("|", &plain("abcdef"), 4, false), Some("abc|".to_string()));
}

#[test]
fn selected_fill_lines_swap_colours() {
    let mut t = StyledText::new();
    let st = InlineStyle { fg: ColorSpec::EightBit(1), bg: ColorSpec::Default, bold: false, dim: false, fill: true };
    t.push("ab".to_string(), st);
    assert_eq!(build_line("", &t, 4, true), Some("\x1b[7m\x1b[0m\x1b[7m\x1b[48;5;1mab  \x1b[0m".to_string()));
    assert_eq!(build_line("", &t, 4, false), Some("\x1b[0m\x1b[38;5;1mab\x1b[0m  ".to_string()));
}

#[test]
fn separators_fill_the_width() {
    assert_eq!(build_separator_line("", 3), "   ");
    assert_eq!(build_separator_line("-", 0), "");
    assert_eq!(build_separator_line("-=", 4), "----");
    assert_eq!(build_separator_line("#[fg=240]─", 5), "\x1b[0m\x1b[38;5;240m─────\x1b[0m");
    assert_eq!(build_separator_line("中", 5), "中中 ");
    assert_eq!(build_separator_line("#[fg=#é1]-", 5), "-----");
}

#[test]
fn empty_lines_keep_the_border() {
    assert_eq!(build_empty_line("", 3), Some("   ".to_string()));
    assert_eq!(build_empty_line("│", 4), Some("   │".to_string()));
    assert_eq!(build_empty_line("#[fg=1]|", 2), Some(" \x1b[0m\x1b[38;5;1m|\x1b[0m".to_string()));
}

#[test]
fn events_wait_for_permission() {
    let mut s = State::new();
    assert_eq!(step(&mut s, Event::TabUpdate { tabs: tabs(&["a", "b"], 1), changed: true }), (false, vec![]));
    assert_eq!(s.pending_events.len(), 1);
    assert!(s.tabs.is_empty());
    let (render, actions) = step(&mut s, Event::PermissionRequestResult(true));
    assert!(render);
    assert_eq!(actions, vec!["selectable:false"]);
    assert_eq!(s.tabs.len(), 2);
    assert_eq!(s.active_tab_idx, 2);
    assert!(s.pending_events.is_empty());
    assert!(s.permissions_granted);
}

#[test]
fn refused_permission_changes_nothing() {
    let mut s = State::new();
    assert_eq!(step(&mut s, Event::PermissionRequestResult(false)), (false, vec![]));
    assert!(!s.permissions_granted);
}

#[test]
fn granting_starts_the_timer_for_commands() {
    let mut s = State::new();
    s.add_command("date".to_string(), "date +%H".to_string(), TickPeriod::Every(30));
    let (_, actions) = step(&mut s, Event::PermissionRequestResult(true));
    assert_eq!(actions, vec!["selectable:false", "timeout"]);
    assert!(s.timer_ticking);
    let (render, actions) = step(&mut s, Event::Timer);
    assert!(!render);
    assert_eq!(actions, vec!["run:date:date +%H", "timeout"]);
    let (_, actions) = step(&mut s, Event::Timer);
    assert_eq!(actions, vec!["timeout"]);
}

#[test]
fn tab_updates() {
    let mut s = granted_state(&["a", "b", "c"], 2);
    assert_eq!(s.active_tab_idx, 3);
    assert_eq!(step(&mut s, Event::TabUpdate { tabs: tabs(&["a", "b", "c"], 2), changed: false }).0, false);
    assert_eq!(step(&mut s, Event::TabUpdate { tabs: tabs(&["a", "b", "c"], 0), changed: false }).0, true);
    assert_eq!(s.active_tab_idx, 1);
    assert_eq!(step(&mut s, Event::TabUpdate { tabs: tabs(&["x", "y"], 9), changed: true }).0, true);
    assert_eq!(s.active_tab_idx, 1);
}

#[test]
fn scrolling_stays_within_the_tabs() {
    let mut s = granted_state(&["a", "b", "c"], 0);
    assert_eq!(step(&mut s, Event::Mouse(Mouse::ScrollUp(1))), (false, vec!["switch:1".to_string()]));
    assert_eq!(step(&mut s, Event::Mouse(Mouse::ScrollDown(1))), (false, vec!["switch:2".to_string()]));
    let mut s = granted_state(&["a", "b", "c"], 2);
    assert_eq!(step(&mut s, Event::Mouse(Mouse::ScrollDown(1))), (false, vec!["switch:3".to_string()]));
    assert_eq!(step(&mut s, Event::Mouse(Mouse::ScrollUp(1))), (false, vec!["switch:2".to_string()]));
}

#[test]
fn clicks_map_rows_to_tabs() {
    let mut s = granted_state(&["a", "b", "c"], 0);
    s.render(10, 20);
    assert_eq!(s.get_tab_at_row(0), Some(None));
    assert_eq!(s.get_tab_at_row(1), Some(Some(1)));
    assert_eq!(s.get_tab_at_row(3), Some(Some(3)));
    assert_eq!(s.get_tab_at_row(4), Some(Some(3)));
    assert_eq!(step(&mut s, Event::Mouse(Mouse::LeftClick(2, 5))), (false, vec!["switch:2".to_string()]));
    assert_eq!(step(&mut s, Event::Mouse(Mouse::LeftClick(0, 5))), (false, vec![]));
}

#[test]
fn clicks_on_overflow_markers() {
    let names = ["t0", "t1", "t2", "t3", "t4", "t5", "t6", "t7", "t8", "t9"];
    let mut s = granted_state(&names, 5);
    s.render(7, 20);
    assert_eq!(s.get_tab_at_row(1), Some(Some(3)));
    assert_eq!(s.get_tab_at_row(2), Some(Some(4)));
    assert_eq!(s.get_tab_at_row(6), Some(Some(8)));
}

#[test]
fn no_click_without_tabs() {
    let s = State::new();
    assert_eq!(s.get_tab_at_row(3), Some(None));
}

#[test]
fn command_outputs() {
    let mut s = granted_state(&["a"], 0);
    assert_eq!(step(&mut s, result("cpu", Some(1), "x")), (true, vec![]));
    assert_eq!(s.command_outputs, vec![("cpu".to_string(), "--".to_string())]);
    assert_eq!(step(&mut s, result("cpu", Some(0), "  42%\n")), (true, vec![]));
    assert_eq!(s.command_outputs, vec![("cpu".to_string(), "42%".to_string())]);
    assert_eq!(step(&mut s, result("cpu", Some(2), "boom")), (true, vec![]));
    assert_eq!(s.command_outputs, vec![("cpu".to_string(), "42%".to_string())]);
    assert_eq!(step(&mut s, result("mem", None, "1G")), (true, vec![]));
    assert_eq!(s.command_outputs[1], ("mem".to_string(), "1G".to_string()));
    let nameless = Event::RunCommandResult { exit_code: Some(0), stdout: vec![], context: vec![] };
    assert_eq!(step(&mut s, nameless), (false, vec![]));
}

#[test]
fn invalid_utf8_output_is_replaced() {
    let mut s = granted_state(&["a"], 0);
    let e = Event::RunCommandResult {
        exit_code: Some(0),
        stdout: vec![b'o', b'k', 0xff],
        context: vec![("command_name".to_string(), "x".to_string())],
    };
    step(&mut s, e);
    assert_eq!(s.command_outputs[0].1, "ok\u{FFFD}");
}

#[test]
fn pipe_messages() {
    let mut s = State::new();
    let (render, actions) = s.pipe("set_selectable", Some("true"));
    assert!(!render);
    assert_eq!(actions.iter().map(describe).collect::<Vec<_>>(), vec!["selectable:true"]);
    assert!(s.is_selectable);
    let (_, actions) = s.pipe("set_selectable", Some("maybe"));
    assert!(actions.is_empty());
    assert!(s.is_selectable);
    let (_, actions) = s.pipe("toggle_selectable", None);
    assert_eq!(actions.iter().map(describe).collect::<Vec<_>>(), vec!["selectable:false"]);
    s.pipe("toggle_selectable", None);
    assert!(s.is_selectable);
    let (_, actions) = s.pipe("other", Some("true"));
    assert!(actions.is_empty());
}

#[test]
fn nothing_is_drawn_before_permission() {
    let mut s = State::new();
    step(&mut s, Event::TabUpdate { tabs: tabs(&["a"], 0), changed: true });
    assert_eq!(s.render(5, 20), Some(vec![]));
    assert_eq!(s.last_rows, 5);
}

#[test]
fn a_small_sidebar() {
    let mut s = granted_state(&["main"], 0);
    step(&mut s, Event::ModeUpdate { mode: ModeInfo { mode: InputMode::Normal, session_name: Some("s".to_string()) }, changed: true });
    let lines = s.render(3, 20).unwrap();
    assert_eq!(
        lines,
        vec![
            format!("s  NORMAL{}", " ".repeat(11)),
            format!("1:main *{}", " ".repeat(12)),
            " ".repeat(20),
        ]
    );
}

#[test]
fn sidebar_always_fills_the_rows() {
    let mut s = granted_state(&["a", "b", "c", "d", "e", "f"], 3);
    s.style.format_footer = "{command_x}\nend".to_string();
    s.style.footer_border = "-".to_string();
    s.style.header_border = "=".to_string();
    s.style.padding_top = 1;
    for rows in 0..12 {
        let lines = s.render(rows, 10).unwrap();
        assert_eq!(lines.len(), rows);
    }
    let lines = s.render(11, 10).unwrap();
    assert_eq!(lines[0], " ".repeat(10));
    assert_eq!(lines[2], "=".repeat(10));
    assert_eq!(lines[8], "-".repeat(10));
    assert_eq!(lines[9], format!("--{}", " ".repeat(8)));
    assert_eq!(lines[10], format!("end{}", " ".repeat(7)));
}

#[test]
fn overflow_marker_texts() {
    assert_eq!(expand_overflow_format("  ^ +{count}", 4), "  ^ +4");
    assert_eq!(expand_overflow_format("{count}{count}", 12), "1212");
    assert_eq!(expand_overflow_format("{cou{count}", 7), "{cou7");
    assert_eq!(expand_overflow_format("none", 3), "none");
}

#[test]
fn overflow_markers_count_hidden_tabs() {
    let names = ["t0", "t1", "t2", "t3", "t4", "t5", "t6", "t7", "t8", "t9"];
    let mut s = granted_state(&names, 5);
    s.style.format_header = String::new();
    let lines = s.render(5, 12).unwrap();
    assert_eq!(lines.len(), 5);
    assert_eq!(lines[0], "  ^ +4      ");
    assert_eq!(lines[1], "5:t4        ");
    assert_eq!(lines[2], "6:t5 *      ");
    assert_eq!(lines[3], "7:t6        ");
    assert_eq!(lines[4], "  v +3      ");
}
