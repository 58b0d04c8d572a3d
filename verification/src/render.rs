//! Expanding format strings with tab, mode and command values, and building
//! the sidebar's lines.

use vstd::prelude::*;
use vstd::string::*;
use crate::color::{ColorSpec, spec_parse_color, parse_color_chars};
use crate::config::{InputMode, StyleConfig, RenderTier, label_at, lookup, lookup_entry, entry_views, opt_view};
use crate::format::{
    FormatToken, TokenView, format_tokens, token_views, format_chars, styled_chars,
    spec_styled_string,
};
use crate::model::{TabInfo, TabView, PaneInfo, PaneView, ModeInfo, ModeView, manifest_view};
use crate::style::{
    InlineStyle, plain_style, StyledText, SegView, keep, total_width, spec_truncate, text_ansi,
    style_ansi, has_style, repeat_char, push_repeated, spec_truncate_string, truncate_string,
};
use crate::text::{
    chars_of, has_prefix, starts_with, slice_chars, string_of, decimal, decimal_string, same_text,
    char_width, width_of_char, push_char,
};

verus! {

// ---------------------------------------------------------------------------
// Pane titles
// ---------------------------------------------------------------------------

/// The panes of the tab at `pos`, from the first entry for that position.
pub open spec fn panes_of(m: Seq<(usize, Seq<PaneView>)>, pos: usize) -> Option<Seq<PaneView>>
    decreases m.len(),
{
    if m.len() == 0 {
        None
    } else if m[0].0 == pos {
        Some(m[0].1)
    } else {
        panes_of(m.drop_first(), pos)
    }
}

/// The title of the first pane that is focused and is not a plugin.
pub open spec fn first_focused(ps: Seq<PaneView>) -> Option<Seq<char>>
    decreases ps.len(),
{
    if ps.len() == 0 {
        None
    } else if ps[0].1 && !ps[0].0 {
        Some(ps[0].2)
    } else {
        first_focused(ps.drop_first())
    }
}

/// Titles that the multiplexer makes up (`Pane #..`, `Tab #..`, empty).
pub open spec fn generic_title(t: Seq<char>) -> bool {
    has_prefix(t, "Pane #"@) || has_prefix(t, "Tab #"@) || t.len() == 0
}

/// The title of the focused terminal pane of the tab at `pos`, unless it is
/// a made-up one.
pub open spec fn focused_title(m: Seq<(usize, Seq<PaneView>)>, pos: usize) -> Option<Seq<char>> {
    match panes_of(m, pos) {
        Some(ps) => match first_focused(ps) {
            Some(t) => if generic_title(t) {
                None
            } else {
                Some(t)
            },
            None => None,
        },
        None => None,
    }
}

/// The title of the focused pane of the tab at `position`.
pub fn get_focused_pane_title(panes: &Vec<(usize, Vec<PaneInfo>)>, position: usize) -> (r: Option<String>)
    ensures
        opt_view(r) == focused_title(manifest_view(panes@), position),
{
    let ghost m = manifest_view(panes@);
    let mut i: usize = 0;
    assert(m.skip(0) =~= m);
    while i < panes.len()
        invariant
            i <= panes@.len(),
            m == manifest_view(panes@),
            panes_of(m, position) == panes_of(m.skip(i as int), position),
        decreases panes@.len() - i,
    {
        assert(m.skip(i as int).drop_first() =~= m.skip(i + 1));
        assert(m.skip(i as int)[0] == m[i as int]);
        if panes[i].0 == position {
            let ps = &panes[i].1;
            let ghost pv = ps@.map_values(|p: PaneInfo| p@);
            let mut j: usize = 0;
            assert(pv.skip(0) =~= pv);
            assert(panes_of(m, position) == Some(pv));
            while j < ps.len()
                invariant
                    j <= ps@.len(),
                    panes_of(manifest_view(panes@), position) == Some(pv),
                    pv == ps@.map_values(|p: PaneInfo| p@),
                    first_focused(pv) == first_focused(pv.skip(j as int)),
                decreases ps@.len() - j,
            {
                assert(pv.skip(j as int).drop_first() =~= pv.skip(j + 1));
                assert(pv.skip(j as int)[0] == ps@[j as int]@);
                let pane = &ps[j];
                assert(pv[j as int] == pane@);
                if pane.is_focused && !pane.is_plugin {
                    assert(first_focused(pv) == Some(pane.title@));
                    let t = chars_of(pane.title.as_str());
                    if starts_with(&t, "Pane #") || starts_with(&t, "Tab #") || t.len() == 0 {
                        return None;
                    }
                    return Some(pane.title.clone());
                }
                j = j + 1;
            }
            return None;
        }
        i = i + 1;
    }
    None
}

} // verus!

verus! {

// ---------------------------------------------------------------------------
// Tab entries
// ---------------------------------------------------------------------------

/// The title shown for a tab: its focused pane's title, else the tab's own
/// name unless made up, else `"..."`.
pub open spec fn tab_pane_title(m: Seq<(usize, Seq<PaneView>)>, tab: TabView) -> Seq<char> {
    match focused_title(m, tab.position) {
        Some(t) => t,
        None => if !has_prefix(tab.name, "Tab #"@) {
            tab.name
        } else {
            "..."@
        },
    }
}

/// The indicators of a tab: fullscreen, sync, active, in that order.
pub open spec fn tab_indicators(cfg: &StyleConfig, tab: TabView) -> Seq<char> {
    (if tab.fullscreen { cfg.indicator_fullscreen@ } else { Seq::empty() }) + (if tab.sync {
        cfg.indicator_sync@
    } else {
        Seq::empty()
    }) + (if tab.active { cfg.indicator_active@ } else { Seq::empty() })
}

/// The value of the variable `n` in a tab entry.
pub open spec fn tab_value(
    cfg: &StyleConfig,
    mode: InputMode,
    tab: TabView,
    title: Seq<char>,
    index: usize,
    n: Seq<char>,
) -> Seq<char> {
    if n == "index"@ || n == "i"@ {
        decimal(index as nat)
    } else if n == "name"@ || n == "n"@ {
        if tab.active && mode == InputMode::RenameTab && tab.name.len() == 0 {
            "Enter name..."@
        } else if !has_prefix(tab.name, "Tab #"@) && tab.name.len() > 0 {
            tab.name
        } else {
            title
        }
    } else if n == "title"@ || n == "t"@ || n == "pane_title"@ {
        title
    } else if n == "indicators"@ {
        tab_indicators(cfg, tab)
    } else if n == "fullscreen"@ {
        if tab.fullscreen { cfg.indicator_fullscreen@ } else { Seq::empty() }
    } else if n == "sync"@ {
        if tab.sync { cfg.indicator_sync@ } else { Seq::empty() }
    } else if n == "active"@ {
        if tab.active { cfg.indicator_active@ } else { Seq::empty() }
    } else {
        "{"@ + n + "}"@
    }
}

/// The styled text of a tab entry's tokens; every variable is cut to its
/// width, or to the configured maximum name length when it has none.
pub open spec fn tab_tokens(
    toks: Seq<TokenView>,
    cur: InlineStyle,
    cfg: &StyleConfig,
    mode: InputMode,
    tab: TabView,
    title: Seq<char>,
    index: usize,
) -> Seq<SegView>
    decreases toks.len(),
{
    if toks.len() == 0 {
        Seq::empty()
    } else {
        match toks[0] {
            TokenView::Style(st) => tab_tokens(toks.drop_first(), st, cfg, mode, tab, title, index),
            TokenView::Literal(l) => keep((l, cur)) + tab_tokens(toks.drop_first(), cur, cfg, mode, tab, title, index),
            TokenView::Variable(n, w) => keep(
                (
                    spec_truncate_string(
                        tab_value(cfg, mode, tab, title, index, n),
                        match w {
                            Some(w) => w as nat,
                            None => cfg.max_name_length as nat,
                        },
                    ),
                    cur,
                ),
            ) + tab_tokens(toks.drop_first(), cur, cfg, mode, tab, title, index),
        }
    }
}

/// The styled entry of a tab with the given index.
pub open spec fn spec_expand_tab(
    cfg: &StyleConfig,
    mode: InputMode,
    m: Seq<(usize, Seq<PaneView>)>,
    format: Seq<char>,
    tab: TabView,
    index: usize,
) -> Seq<SegView> {
    tab_tokens(format_tokens(format), plain_style(), cfg, mode, tab, tab_pane_title(m, tab), index)
}

fn tab_value_exec(
    cfg: &StyleConfig,
    mode: InputMode,
    tab: &TabInfo,
    title: &String,
    indicators: &String,
    index: usize,
    n: &str,
) -> (v: String)
    requires
        indicators@ == tab_indicators(cfg, tab@),
    ensures
        v@ == tab_value(cfg, mode, tab@, title@, index, n@),
{
    if same_text(n, "index") || same_text(n, "i") {
        decimal_string(index)
    } else if same_text(n, "name") || same_text(n, "n") {
        let tn = chars_of(tab.name.as_str());
        if tab.active && mode == InputMode::RenameTab && tn.len() == 0 {
            "Enter name...".to_owned()
        } else if !starts_with(&tn, "Tab #") && tn.len() > 0 {
            tab.name.clone()
        } else {
            title.clone()
        }
    } else if same_text(n, "title") || same_text(n, "t") || same_text(n, "pane_title") {
        title.clone()
    } else if same_text(n, "indicators") {
        indicators.clone()
    } else if same_text(n, "fullscreen") {
        if tab.is_fullscreen_active { cfg.indicator_fullscreen.clone() } else { String::new() }
    } else if same_text(n, "sync") {
        if tab.is_sync_panes_active { cfg.indicator_sync.clone() } else { String::new() }
    } else if same_text(n, "active") {
        if tab.active { cfg.indicator_active.clone() } else { String::new() }
    } else {
        let mut s = String::new();
        s.append("{");
        s.append(n);
        s.append("}");
        s
    }
}

/// Expands a tab entry's format for a tab shown with number `index`.
pub fn expand_tmux_format(
    cfg: &StyleConfig,
    mode: InputMode,
    panes: &Vec<(usize, Vec<PaneInfo>)>,
    format: &str,
    tab: &TabInfo,
    index: usize,
) -> (r: StyledText)
    ensures
        r@ == spec_expand_tab(cfg, mode, manifest_view(panes@), format@, tab@, index),
{
    let fv = chars_of(format);
    let tokens = format_chars(&fv);
    let title: String = match get_focused_pane_title(panes, tab.position) {
        Some(t) => t,
        None => {
            let tn = chars_of(tab.name.as_str());
            if !starts_with(&tn, "Tab #") {
                tab.name.clone()
            } else {
                "...".to_owned()
            }
        },
    };
    let mut indicators = String::new();
    if tab.is_fullscreen_active {
        indicators.append(cfg.indicator_fullscreen.as_str());
    }
    if tab.is_sync_panes_active {
        indicators.append(cfg.indicator_sync.as_str());
    }
    if tab.active {
        indicators.append(cfg.indicator_active.as_str());
    }
    assert(indicators@ =~= tab_indicators(cfg, tab@));
    let ghost tv = token_views(tokens@);
    let ghost ttl = tab_pane_title(manifest_view(panes@), tab@);
    assert(title@ == ttl);
    let mut result = StyledText::new();
    let mut cur = InlineStyle::default();
    let mut i: usize = 0;
    assert(tv.skip(0) =~= tv);
    while i < tokens.len()
        invariant
            i <= tokens@.len(),
            tv == token_views(tokens@),
            tv == format_tokens(format@),
            title@ == ttl,
            indicators@ == tab_indicators(cfg, tab@),
            result@ + tab_tokens(tv.skip(i as int), cur, cfg, mode, tab@, ttl, index) == tab_tokens(
                tv,
                plain_style(),
                cfg,
                mode,
                tab@,
                ttl,
                index,
            ),
        decreases tokens@.len() - i,
    {
        assert(tv.skip(i as int)[0] == tokens@[i as int]@);
        assert(tv.skip(i as int).drop_first() =~= tv.skip(i + 1));
        match &tokens[i] {
            FormatToken::Style(st) => {
                cur = *st;
            },
            FormatToken::Literal(text) => {
                result.push(text.clone(), cur);
                assert(result@ + tab_tokens(tv.skip(i + 1), cur, cfg, mode, tab@, ttl, index) =~= tab_tokens(
                    tv,
                    plain_style(),
                    cfg,
                    mode,
                    tab@,
                    ttl,
                    index,
                ));
            },
            FormatToken::Variable { name, width } => {
                let value = tab_value_exec(cfg, mode, tab, &title, &indicators, index, name.as_str());
                let limit = match width {
                    Some(w) => *w,
                    None => cfg.max_name_length,
                };
                let text = truncate_string(value.as_str(), limit);
                result.push(text, cur);
                assert(result@ + tab_tokens(tv.skip(i + 1), cur, cfg, mode, tab@, ttl, index) =~= tab_tokens(
                    tv,
                    plain_style(),
                    cfg,
                    mode,
                    tab@,
                    ttl,
                    index,
                ));
            },
        }
        i = i + 1;
    }
    assert(tv.skip(i as int) =~= Seq::<TokenView>::empty());
    assert(result@ =~= tab_tokens(tv, plain_style(), cfg, mode, tab@, ttl, index));
    result
}

} // verus!

verus! {

// ---------------------------------------------------------------------------
// Header and footer lines
// ---------------------------------------------------------------------------

/// A value cut to the variable's width, when it has one.
pub open spec fn sized(v: Seq<char>, w: Option<usize>) -> Seq<char> {
    match w {
        Some(w) => spec_truncate_string(v, w as nat),
        None => v,
    }
}

/// The value of a header/footer variable other than `session` and `mode`:
/// `command_NAME` gives the last output of command `NAME` (`"--"` before
/// any), anything else is kept as `{name}`.
pub open spec fn command_value(n: Seq<char>, outputs: Seq<(Seq<char>, Seq<char>)>) -> Seq<char> {
    if has_prefix(n, "command_"@) {
        match lookup(outputs, n.skip("command_"@.len() as int)) {
            Some(o) => o,
            None => "--"@,
        }
    } else {
        "{"@ + n + "}"@
    }
}

/// The style of the mode label: the current style with the mode's colour as
/// foreground when one is configured.
pub open spec fn mode_style(cur: InlineStyle, color: Option<Seq<char>>) -> InlineStyle {
    match color {
        None => cur,
        Some(c) => InlineStyle { fg: spec_parse_color(c), ..cur },
    }
}

/// The styled text of header/footer tokens.
pub open spec fn generic_tokens(
    toks: Seq<TokenView>,
    cur: InlineStyle,
    session: Seq<char>,
    label: Seq<char>,
    color: Option<Seq<char>>,
    outputs: Seq<(Seq<char>, Seq<char>)>,
) -> Seq<SegView>
    decreases toks.len(),
{
    if toks.len() == 0 {
        Seq::empty()
    } else {
        let rest = toks.drop_first();
        match toks[0] {
            TokenView::Style(st) => generic_tokens(rest, st, session, label, color, outputs),
            TokenView::Literal(l) => keep((l, cur)) + generic_tokens(rest, cur, session, label, color, outputs),
            TokenView::Variable(n, w) => keep(generic_var_seg(n, w, cur, session, label, color, outputs))
                + generic_tokens(rest, cur, session, label, color, outputs),
        }
    }
}

/// The session's name, `"zellij"` when unknown.
pub open spec fn session_of(mode: ModeView) -> Seq<char> {
    match mode.1 {
        Some(s) => s,
        None => "zellij"@,
    }
}

/// The styled text of a header or footer line.
pub open spec fn spec_expand_generic(
    cfg: &StyleConfig,
    mode: ModeView,
    outputs: Seq<(Seq<char>, Seq<char>)>,
    format: Seq<char>,
    tier: RenderTier,
) -> Seq<SegView> {
    generic_tokens(
        format_tokens(format),
        plain_style(),
        session_of(mode),
        label_at(cfg.labels_of(mode.0), tier),
        cfg.color_of(mode.0),
        outputs,
    )
}

fn sized_exec(v: &String, w: Option<usize>) -> (r: String)
    ensures
        r@ == sized(v@, w),
{
    match w {
        Some(w) => truncate_string(v.as_str(), w),
        None => v.clone(),
    }
}

/// The segment of a header/footer variable: the session's name, the mode's
/// label in the mode's style, or a command's output (`"--"` while it has
/// none), cut to the variable's width.
pub open spec fn generic_var_seg(
    n: Seq<char>,
    w: Option<usize>,
    cur: InlineStyle,
    session: Seq<char>,
    label: Seq<char>,
    color: Option<Seq<char>>,
    outputs: Seq<(Seq<char>, Seq<char>)>,
) -> SegView {
    if n == "session"@ {
        (sized(session, w), cur)
    } else if n == "mode"@ {
        (sized(label, w), mode_style(cur, color))
    } else {
        (sized(command_value(n, outputs), w), cur)
    }
}

fn generic_variable(
    name: &String,
    width: Option<usize>,
    cur: InlineStyle,
    session_name: &String,
    mode_label: &String,
    mode_color: &Option<String>,
    outputs: &Vec<(String, String)>,
) -> (r: (String, InlineStyle))
    ensures
        generic_var_seg(name@, width, cur, session_name@, mode_label@, opt_view(*mode_color), entry_views(outputs@)) == (r.0@, r.1),
{
    if same_text(name.as_str(), "session") {
        (sized_exec(session_name, width), cur)
    } else if same_text(name.as_str(), "mode") {
        let mut ms = cur;
        match mode_color {
            Some(c) => {
                let cv = chars_of(c.as_str());
                ms.fg = parse_color_chars(&cv);
            },
            None => {},
        }
        (sized_exec(mode_label, width), ms)
    } else {
        proof {
            reveal_strlit("command_");
        }
        let nv = chars_of(name.as_str());
        let raw: String = if starts_with(&nv, "command_") {
            let cmd = slice_chars(&nv, 8, nv.len());
            assert(cmd@ =~= name@.skip(8));
            let cs = string_of(&cmd);
            match lookup_entry(outputs, cs.as_str()) {
                Some(o) => o,
                None => "--".to_owned(),
            }
        } else {
            let mut s = String::new();
            s.append("{");
            s.append(name.as_str());
            s.append("}");
            s
        };
        (sized_exec(&raw, width), cur)
    }
}

/// Expands a header or footer line.
pub fn expand_generic_format(
    cfg: &StyleConfig,
    mode: &ModeInfo,
    outputs: &Vec<(String, String)>,
    format: &str,
    tier: RenderTier,
) -> (r: StyledText)
    requires
        cfg.wf(),
    ensures
        r@ == spec_expand_generic(cfg, mode@, entry_views(outputs@), format@, tier),
{
    proof {
        reveal_strlit("command_");
    }
    let fv = chars_of(format);
    let tokens = format_chars(&fv);
    let session_name: String = match &mode.session_name {
        Some(s) => s.clone(),
        None => "zellij".to_owned(),
    };
    let (mode_label, mode_color) = cfg.mode_display(mode.mode, tier);
    let ghost tv = token_views(tokens@);
    let ghost outs = entry_views(outputs@);
    let ghost target = spec_expand_generic(cfg, mode@, outs, format@, tier);
    let ghost color = opt_view(mode_color);
    let mut result = StyledText::new();
    let mut cur = InlineStyle::default();
    let mut i: usize = 0;
    assert(tv.skip(0) =~= tv);
    assert(target == generic_tokens(tv, plain_style(), session_name@, mode_label@, color, outs));
    assert(result@ + target =~= target);
    while i < tokens.len()
        invariant
            i <= tokens@.len(),
            tv == token_views(tokens@),
            outs == entry_views(outputs@),
            color == opt_view(mode_color),
            target == spec_expand_generic(cfg, mode@, outs, format@, tier),
            result@ + generic_tokens(tv.skip(i as int), cur, session_name@, mode_label@, color, outs) == target,
        decreases tokens@.len() - i,
    {
        let ghost rest = tv.skip(i + 1);
        assert(tv.skip(i as int)[0] == tokens@[i as int]@);
        assert(tv.skip(i as int).drop_first() =~= rest);
        match &tokens[i] {
            FormatToken::Style(st) => {
                cur = *st;
            },
            FormatToken::Literal(text) => {
                let ghost before = result@;
                result.push(text.clone(), cur);
                let ghost g = generic_tokens(rest, cur, session_name@, mode_label@, color, outs);
                assert(before + (keep((text@, cur)) + g) =~= result@ + g);
            },
            FormatToken::Variable { name, width } => {
                let ghost before = result@;
                let (text, st) = generic_variable(name, *width, cur, &session_name, &mode_label, &mode_color, outputs);
                result.push(text, st);
                let ghost g = generic_tokens(rest, cur, session_name@, mode_label@, color, outs);
                assert(before + (keep((text@, st)) + g) =~= result@ + g);
            },
        }
        i = i + 1;
    }
    assert(tv.skip(i as int) =~= Seq::<TokenView>::empty());
    assert(result@ + Seq::<SegView>::empty() =~= result@);
    result
}

} // verus!

verus! {

// ---------------------------------------------------------------------------
// Lines
// ---------------------------------------------------------------------------

/// `a - b`, or 0 when `b` is larger.
pub open spec fn sat_sub(a: int, b: int) -> int {
    if a >= b {
        a - b
    } else {
        0
    }
}

/// A style with its colours swapped and without fill, as used under
/// reverse video.
pub open spec fn swapped(st: InlineStyle) -> InlineStyle {
    InlineStyle { fg: st.bg, bg: st.fg, fill: false, ..st }
}

/// The segments of a selected line that fills its row.
pub open spec fn fill_segments(v: Seq<SegView>) -> Seq<char>
    decreases v.len(),
{
    if v.len() == 0 {
        Seq::empty()
    } else {
        let s = v.last();
        fill_segments(v.drop_last()) + (if has_style(swapped(s.1)) {
            "\x1b[0m\x1b[7m"@ + style_ansi(swapped(s.1))
        } else {
            Seq::empty()
        }) + s.0
    }
}

/// Whether some segment asks to fill the row.
pub open spec fn any_fill(v: Seq<SegView>) -> bool {
    exists|i: int| 0 <= i < v.len() && (#[trigger] v[i]).1.fill
}

/// A tab line: the content cut to the columns left by the border, padded
/// with spaces, then the border. A selected line with a `fill` segment is
/// drawn in reverse video with swapped colours so that its background fills
/// the row. `None` where a width overflows `usize`.
#[verifier::opaque]
pub open spec fn spec_build_line(border: Seq<char>, content: Seq<SegView>, cols: usize, selected: bool) -> Option<Seq<char>> {
    let b = spec_styled_string(border);
    let bw = total_width(b);
    if bw > usize::MAX || total_width(content) > usize::MAX {
        None
    } else {
        let eff = sat_sub(cols as int, bw);
        let c = spec_truncate(content, eff);
        let cw = total_width(c);
        if cw > usize::MAX {
            None
        } else {
            let pad = sat_sub(eff, cw) as nat;
            let body = if selected && any_fill(c) {
                "\x1b[7m"@ + fill_segments(c) + repeat_char(' ', pad) + "\x1b[0m"@
            } else {
                text_ansi(c) + repeat_char(' ', pad)
            };
            Some(body + (if bw > 0 { text_ansi(b) } else { Seq::empty() }))
        }
    }
}

/// A header or footer line: the content cut to `cols` and padded with
/// spaces; `None` where a width overflows.
#[verifier::opaque]
pub open spec fn spec_build_plain(content: Seq<SegView>, cols: usize) -> Option<Seq<char>> {
    if total_width(content) > usize::MAX {
        None
    } else {
        let c = spec_truncate(content, cols as int);
        let cw = total_width(c);
        if cw > usize::MAX {
            None
        } else {
            Some(text_ansi(c) + repeat_char(' ', sat_sub(cols as int, cw) as nat))
        }
    }
}

/// A separator line: the first character of the separator's first segment
/// repeated across the columns in that segment's style (columns left over
/// by a wide character are spaces); blank when there is no separator.
#[verifier::opaque]
pub open spec fn spec_separator(sep: Seq<char>, cols: usize) -> Seq<char> {
    if sep.len() == 0 || cols == 0 {
        repeat_char(' ', cols as nat)
    } else {
        let st = spec_styled_string(sep);
        if st.len() == 0 {
            repeat_char(' ', cols as nat)
        } else {
            let fc = if st[0].0.len() > 0 { st[0].0[0] } else { '\u{2500}' };
            let w = if char_width(fc) >= 1 { char_width(fc) } else { 1 };
            text_ansi(keep((repeat_char(fc, (cols as nat) / w), st[0].1))) + repeat_char(' ', (cols as nat) % w)
        }
    }
}

/// A blank line with the border at its end; `None` where the border's width
/// overflows `usize`.
#[verifier::opaque]
pub open spec fn spec_empty_line(border: Seq<char>, cols: usize) -> Option<Seq<char>> {
    let b = spec_styled_string(border);
    let bw = total_width(b);
    if bw > usize::MAX {
        None
    } else if bw == 0 {
        Some(repeat_char(' ', cols as nat))
    } else {
        Some(repeat_char(' ', sat_sub(cols as int, bw) as nat) + text_ansi(b))
    }
}

fn fill_segments_exec(t: &StyledText) -> (s: String)
    ensures
        s@ == fill_segments(t@),
{
    let mut s = String::new();
    let mut i: usize = 0;
    assert(t@.take(0) =~= Seq::<SegView>::empty());
    while i < t.segments.len()
        invariant
            i <= t@.len(),
            t@.len() == t.segments@.len(),
            s@ == fill_segments(t@.take(i as int)),
        decreases t@.len() - i,
    {
        let seg = &t.segments[i];
        assert(t@[i as int] == seg@);
        assert(t@.take(i + 1).drop_last() =~= t@.take(i as int));
        assert(t@.take(i + 1).last() == seg@);
        let mut st = seg.style;
        let fg = st.fg;
        st.fg = st.bg;
        st.bg = fg;
        st.fill = false;
        assert(st == swapped(seg.style));
        if st.has_any_style() {
            s.append("\x1b[0m\x1b[7m");
            let a = st.to_ansi();
            s.append(a.as_str());
        }
        s.append(seg.text.as_str());
        assert(s@ =~= fill_segments(t@.take(i + 1)));
        i = i + 1;
    }
    assert(t@.take(i as int) =~= t@);
    s
}

fn any_fill_exec(t: &StyledText) -> (b: bool)
    ensures
        b == any_fill(t@),
{
    let mut i: usize = 0;
    while i < t.segments.len()
        invariant
            i <= t@.len(),
            t@.len() == t.segments@.len(),
            forall|k: int| 0 <= k < i ==> !(#[trigger] t@[k]).1.fill,
        decreases t@.len() - i,
    {
        assert(t@[i as int] == t.segments@[i as int]@);
        if t.segments[i].style.fill {
            return true;
        }
        i = i + 1;
    }
    false
}

/// Builds a tab line (see `spec_build_line`).
pub fn build_line(border: &str, content: &StyledText, cols: usize, is_selected: bool) -> (r: Option<String>)
    ensures
        opt_view(r) == spec_build_line(border@, content@, cols, is_selected),
{
    proof {
        reveal(spec_build_line);
    }
    let bv = chars_of(border);
    let b = styled_chars(&bv);
    let bw = match b.display_width() {
        Some(w) => w,
        None => return None,
    };
    let eff = cols.saturating_sub(bw);
    let c = match content.truncate(eff) {
        Some(c) => c,
        None => return None,
    };
    let cw = match c.display_width() {
        Some(w) => w,
        None => return None,
    };
    let pad = eff.saturating_sub(cw);
    let mut line = String::new();
    if is_selected && any_fill_exec(&c) {
        line.append("\x1b[7m");
        let f = fill_segments_exec(&c);
        line.append(f.as_str());
        push_repeated(&mut line, ' ', pad);
        line.append("\x1b[0m");
    } else {
        let a = c.to_ansi();
        line.append(a.as_str());
        push_repeated(&mut line, ' ', pad);
    }
    if bw > 0 {
        let a = b.to_ansi();
        line.append(a.as_str());
    }
    assert(line@ =~= spec_build_line(border@, content@, cols, is_selected)->0);
    Some(line)
}

/// Builds a header or footer line (see `spec_build_plain`).
pub fn build_plain_line(content: &StyledText, cols: usize) -> (r: Option<String>)
    ensures
        opt_view(r) == spec_build_plain(content@, cols),
{
    proof {
        reveal(spec_build_plain);
    }
    let c = match content.truncate(cols) {
        Some(c) => c,
        None => return None,
    };
    let cw = match c.display_width() {
        Some(w) => w,
        None => return None,
    };
    let mut line = c.to_ansi();
    push_repeated(&mut line, ' ', cols.saturating_sub(cw));
    Some(line)
}

/// Builds a separator line (see `spec_separator`).
pub fn build_separator_line(separator_format: &str, cols: usize) -> (r: String)
    ensures
        r@ == spec_separator(separator_format@, cols),
{
    proof {
        reveal(spec_separator);
    }
    let sv = chars_of(separator_format);
    if sv.len() == 0 || cols == 0 {
        return crate::style::repeated(' ', cols);
    }
    let styled = styled_chars(&sv);
    if styled.segments.len() == 0 {
        return crate::style::repeated(' ', cols);
    }
    let first = &styled.segments[0];
    assert(styled@[0] == first@);
    let tv = chars_of(first.text.as_str());
    let fill_char: char = if tv.len() > 0 { tv[0] } else { '\u{2500}' };
    let cw = width_of_char(fill_char);
    let w: usize = if cw >= 1 { cw } else { 1 };
    let repeat_count = cols / w;
    let remainder = cols % w;
    let mut filled = StyledText::new();
    let body = crate::style::repeated(fill_char, repeat_count);
    filled.push(body, first.style);
    let mut line = filled.to_ansi();
    push_repeated(&mut line, ' ', remainder);
    assert(filled@ =~= keep((repeat_char(fill_char, repeat_count as nat), first.style)));
    line
}

/// Builds a blank line with the border (see `spec_empty_line`).
pub fn build_empty_line(border: &str, cols: usize) -> (r: Option<String>)
    ensures
        opt_view(r) == spec_empty_line(border@, cols),
{
    proof {
        reveal(spec_empty_line);
    }
    let bv = chars_of(border);
    let b = styled_chars(&bv);
    let bw = match b.display_width() {
        Some(w) => w,
        None => return None,
    };
    if bw == 0 {
        return Some(crate::style::repeated(' ', cols));
    }
    let mut line = crate::style::repeated(' ', cols.saturating_sub(bw));
    let a = b.to_ansi();
    line.append(a.as_str());
    Some(line)
}

} // verus!

verus! {

/// An overflow marker's text: the format with each `{count}` replaced by
/// the number of hidden tabs.
pub fn expand_overflow_format(format: &str, count: usize) -> (r: String)
    ensures
        r@ == crate::text::replace_all(format@, "{count}"@, decimal(count as nat)),
{
    proof {
        reveal_strlit("{count}");
    }
    let n = decimal_string(count);
    crate::text::replace_text(format, "{count}", n.as_str())
}

} // verus!

verus! {

proof fn lemma_single_variable(name: Seq<char>)
    requires
        name.len() > 0,
        name[0] != '=',
        forall|i: int| 0 <= i < name.len() ==> name[i] != '}',
    ensures
        format_tokens(seq!['{'] + name + seq!['}']) == seq![TokenView::Variable(name, None)],
{
    let f = seq!['{'] + name + seq!['}'];
    let t = f.skip(1);
    assert(t =~= name + seq!['}']);
    crate::text::lemma_find_char(t, '}');
    assert(t[name.len() as int] == '}');
    assert(crate::text::find_char(t, '}') == Some(name.len() as int));
    assert(t.take(name.len() as int) =~= name);
    assert(t.skip(name.len() + 1int) =~= Seq::<char>::empty());
    assert(f[0] == '{');
    assert(crate::format::take_until(t, '}') == (name, Seq::<char>::empty()));
    assert(crate::format::flush(Seq::<char>::empty()) =~= Seq::<crate::format::RawToken>::empty());
    assert(crate::format::lex(Seq::<char>::empty(), Seq::<char>::empty()) =~= Seq::<crate::format::RawToken>::empty());
    assert(crate::format::lex(f, Seq::empty()) =~= seq![crate::format::RawToken::Var(name)]);
    assert(format_tokens(f) =~= seq![TokenView::Variable(name, None)]);
}

/// A tab's `{indicators}` are its `{fullscreen}`, `{sync}` and `{active}`
/// values in this order, and each of those is the configured indicator when
/// the tab has that flag and nothing otherwise. So the entry
/// `{indicators}` shows exactly the indicators of the flags the tab has,
/// cut to the maximum name length.
pub proof fn law_tab_indicators(
    cfg: &StyleConfig,
    mode: InputMode,
    m: Seq<(usize, Seq<PaneView>)>,
    tab: TabView,
    title: Seq<char>,
    index: usize,
)
    ensures
        tab_value(cfg, mode, tab, title, index, "indicators"@) == tab_value(cfg, mode, tab, title, index, "fullscreen"@)
            + tab_value(cfg, mode, tab, title, index, "sync"@) + tab_value(cfg, mode, tab, title, index, "active"@),
        tab_value(cfg, mode, tab, title, index, "fullscreen"@) == if tab.fullscreen {
            cfg.indicator_fullscreen@
        } else {
            Seq::<char>::empty()
        },
        tab_value(cfg, mode, tab, title, index, "sync"@) == if tab.sync {
            cfg.indicator_sync@
        } else {
            Seq::<char>::empty()
        },
        tab_value(cfg, mode, tab, title, index, "active"@) == if tab.active {
            cfg.indicator_active@
        } else {
            Seq::<char>::empty()
        },
        spec_expand_tab(cfg, mode, m, "{indicators}"@, tab, index) == crate::style::keep(
            (
                spec_truncate_string(
                    (if tab.fullscreen { cfg.indicator_fullscreen@ } else { Seq::<char>::empty() }) + (if tab.sync {
                        cfg.indicator_sync@
                    } else {
                        Seq::<char>::empty()
                    }) + (if tab.active { cfg.indicator_active@ } else { Seq::<char>::empty() }),
                    cfg.max_name_length as nat,
                ),
                plain_style(),
            ),
        ),
{
    let names = seq!["index"@, "i"@, "name"@, "n"@, "title"@, "t"@, "pane_title"@, "indicators"@, "fullscreen"@, "sync"@, "active"@];
    reveal_strlit("index");
    reveal_strlit("i");
    reveal_strlit("name");
    reveal_strlit("n");
    reveal_strlit("title");
    reveal_strlit("t");
    reveal_strlit("pane_title");
    reveal_strlit("indicators");
    reveal_strlit("fullscreen");
    reveal_strlit("sync");
    reveal_strlit("active");
    reveal_strlit("{indicators}");
    assert("index"@.len() == 5 && "index"@[0] == 'i' && "index"@[1] == 'n');
    assert("i"@.len() == 1 && "i"@[0] == 'i');
    assert("name"@.len() == 4 && "name"@[0] == 'n');
    assert("n"@.len() == 1 && "n"@[0] == 'n');
    assert("title"@.len() == 5 && "title"@[0] == 't');
    assert("t"@.len() == 1 && "t"@[0] == 't');
    assert("pane_title"@.len() == 10 && "pane_title"@[0] == 'p');
    assert("indicators"@.len() == 10 && "indicators"@[0] == 'i' && "indicators"@[1] == 'n');
    assert("fullscreen"@.len() == 10 && "fullscreen"@[0] == 'f');
    assert("sync"@.len() == 4 && "sync"@[0] == 's');
    assert("active"@.len() == 6 && "active"@[0] == 'a');
    let ind = "indicators"@;
    assert("{indicators}"@ =~= seq!['{'] + ind + seq!['}']);
    lemma_single_variable(ind);
    let toks = format_tokens("{indicators}"@);
    assert(toks.drop_first() =~= Seq::<TokenView>::empty());
    assert(toks[0] == TokenView::Variable(ind, None));
    let ttl = tab_pane_title(m, tab);
    assert(tab_tokens(toks.drop_first(), plain_style(), cfg, mode, tab, ttl, index) == Seq::<SegView>::empty());
    assert(tab_value(cfg, mode, tab, ttl, index, ind) == tab_indicators(cfg, tab));
    assert(tab_tokens(toks, plain_style(), cfg, mode, tab, ttl, index) =~= keep(
        (spec_truncate_string(tab_indicators(cfg, tab), cfg.max_name_length as nat), plain_style()),
    ));
}

/// In a header or footer line the text of a literal or of a variable
/// carries the style of the last `#[...]` directive before it (the plain
/// style before any directive); the mode's label differs from it only in its
/// foreground, which is the mode's colour when one is configured.
pub proof fn law_generic_styles(
    toks: Seq<TokenView>,
    cur: InlineStyle,
    session: Seq<char>,
    label: Seq<char>,
    color: Option<Seq<char>>,
    outputs: Seq<(Seq<char>, Seq<char>)>,
)
    requires
        toks.len() > 0,
    ensures
        toks[0] matches TokenView::Style(st) ==> generic_tokens(toks, cur, session, label, color, outputs)
            == generic_tokens(toks.drop_first(), st, session, label, color, outputs),
        toks[0] matches TokenView::Literal(l) ==> generic_tokens(toks, cur, session, label, color, outputs) == keep(
            (l, cur),
        ) + generic_tokens(toks.drop_first(), cur, session, label, color, outputs),
        toks[0] matches TokenView::Variable(n, w) ==> generic_tokens(toks, cur, session, label, color, outputs)
            == keep(
            (
                generic_var_seg(n, w, cur, session, label, color, outputs).0,
                if n == "mode"@ {
                    InlineStyle {
                        fg: match color {
                            Some(c) => spec_parse_color(c),
                            None => cur.fg,
                        },
                        ..cur
                    }
                } else {
                    cur
                },
            ),
        ) + generic_tokens(toks.drop_first(), cur, session, label, color, outputs),
{
    if toks[0] is Variable {
        let n = toks[0]->Variable_0;
        let w = toks[0]->Variable_1;
        if n == "mode"@ {
            reveal_strlit("session");
            reveal_strlit("mode");
            assert("session"@ != "mode"@) by {
                assert("session"@.len() != "mode"@.len());
            }
            match color {
                Some(c) => {},
                None => {
                    assert(InlineStyle { fg: cur.fg, ..cur } == cur);
                },
            }
        }
    }
}

} // verus!
