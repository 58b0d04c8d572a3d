//! The sidebar plugin's state and how events change it: the decisions are
//! made here and returned as actions for the host to perform.

use vstd::prelude::*;
use vstd::string::*;
use crate::commands::{
    CommandDef, CmdView, TickPeriod, cmd_views, cmd_names, strictly_sorted, due_list, tick_one,
    tick_commands, install_command, insert_command, new_command,
};
use crate::config::{InputMode, StyleConfig, lookup, lookup_entry, entry_views, opt_view};
use crate::layout::{visible_range, calculate_visible_range};
use crate::model::{TabInfo, TabView, PaneInfo, PaneView, ModeInfo, ModeView, manifest_view, tab_views};
use crate::text::{chars_of, text_lines, lines_of, trim, trimmed, string_of, lossy_utf8, utf8_lossy};

verus! {

/// Mouse input on the sidebar.
#[derive(Debug, Clone, Copy, PartialEq, Eq, Structural)]
pub enum Mouse {
    /// Row and column of a left click.
    LeftClick(isize, usize),
    ScrollUp(usize),
    ScrollDown(usize),
    /// Any other mouse input.
    Other,
}

/// An event from the host. Where the host's own values carry more than the
/// sidebar keeps, `changed` says whether they differ from the previous ones.
#[derive(Debug)]
pub enum Event {
    ModeUpdate { mode: ModeInfo, changed: bool },
    TabUpdate { tabs: Vec<TabInfo>, changed: bool },
    PaneUpdate(Vec<(usize, Vec<PaneInfo>)>),
    Mouse(Mouse),
    /// Whether the requested permissions were granted.
    PermissionRequestResult(bool),
    Timer,
    RunCommandResult { exit_code: Option<i32>, stdout: Vec<u8>, context: Vec<(String, String)> },
    Other,
}

/// An event as a value.
pub enum EventView {
    ModeUpdate(ModeView, bool),
    TabUpdate(Seq<TabView>, bool),
    PaneUpdate(Seq<(usize, Seq<PaneView>)>),
    Mouse(Mouse),
    PermissionRequestResult(bool),
    Timer,
    RunCommandResult(Option<i32>, Seq<u8>, Seq<(Seq<char>, Seq<char>)>),
    Other,
}

impl View for Event {
    type V = EventView;

    open spec fn view(&self) -> EventView {
        match self {
            Event::ModeUpdate { mode, changed } => EventView::ModeUpdate(mode@, *changed),
            Event::TabUpdate { tabs, changed } => EventView::TabUpdate(tab_views(tabs@), *changed),
            Event::PaneUpdate(p) => EventView::PaneUpdate(manifest_view(p@)),
            Event::Mouse(m) => EventView::Mouse(*m),
            Event::PermissionRequestResult(g) => EventView::PermissionRequestResult(*g),
            Event::Timer => EventView::Timer,
            Event::RunCommandResult { exit_code, stdout, context } => EventView::RunCommandResult(
                *exit_code,
                stdout@,
                entry_views(context@),
            ),
            Event::Other => EventView::Other,
        }
    }
}

/// Something for the host to do.
#[derive(Debug)]
pub enum Action {
    SetSelectable(bool),
    /// Arm the one-second timer.
    SetTimeout,
    /// Switch to the tab with this 1-based index.
    SwitchTab(u32),
    /// Run a command's text with `bash -c`, tagged with its name.
    RunCommand { name: String, command: String },
}

/// An action as a value.
pub enum ActionView {
    SetSelectable(bool),
    SetTimeout,
    SwitchTab(u32),
    RunCommand(Seq<char>, Seq<char>),
}

impl View for Action {
    type V = ActionView;

    open spec fn view(&self) -> ActionView {
        match self {
            Action::SetSelectable(b) => ActionView::SetSelectable(*b),
            Action::SetTimeout => ActionView::SetTimeout,
            Action::SwitchTab(i) => ActionView::SwitchTab(*i),
            Action::RunCommand { name, command } => ActionView::RunCommand(name@, command@),
        }
    }
}

/// The views of a list of actions.
pub open spec fn action_views(a: Seq<Action>) -> Seq<ActionView> {
    a.map_values(|x: Action| x@)
}

/// The plugin's state.
#[derive(Debug)]
pub struct State {
    pub tabs: Vec<TabInfo>,
    /// 1-based index of the active tab (0 before any tab update).
    pub active_tab_idx: usize,
    pub mode_info: ModeInfo,
    pub pane_manifest: Vec<(usize, Vec<PaneInfo>)>,
    pub style: StyleConfig,
    pub last_rows: usize,
    pub permissions_granted: bool,
    pub is_selectable: bool,
    /// Events received before permissions were granted.
    pub pending_events: Vec<Event>,
    /// Scheduled commands, sorted by name.
    pub commands: Vec<CommandDef>,
    /// Last output of each command, by command name.
    pub command_outputs: Vec<(String, String)>,
    pub timer_ticking: bool,
}

/// The state as a value (the configuration aside).
#[verifier::ext_equal]
pub struct StateView {
    pub tabs: Seq<TabView>,
    pub active_tab_idx: usize,
    pub mode: ModeView,
    pub panes: Seq<(usize, Seq<PaneView>)>,
    pub last_rows: usize,
    pub permissions_granted: bool,
    pub is_selectable: bool,
    pub pending: Seq<EventView>,
    pub commands: Seq<CmdView>,
    pub outputs: Seq<(Seq<char>, Seq<char>)>,
    pub timer_ticking: bool,
}

impl View for State {
    type V = StateView;

    open spec fn view(&self) -> StateView {
        StateView {
            tabs: tab_views(self.tabs@),
            active_tab_idx: self.active_tab_idx,
            mode: self.mode_info@,
            panes: manifest_view(self.pane_manifest@),
            last_rows: self.last_rows,
            permissions_granted: self.permissions_granted,
            is_selectable: self.is_selectable,
            pending: self.pending_events@.map_values(|e: Event| e@),
            commands: cmd_views(self.commands@),
            outputs: entry_views(self.command_outputs@),
            timer_ticking: self.timer_ticking,
        }
    }
}

/// What holds of every state: the configuration's per-mode tables are
/// complete, commands are sorted by name, the active index is at most one
/// past the tabs, no event waits once permissions are granted, and no
/// permission answer waits among the pending events.
pub open spec fn state_wf(cfg: &StyleConfig, s: StateView) -> bool {
    &&& cfg.wf()
    &&& strictly_sorted(cmd_names(s.commands))
    &&& s.tabs.len() + 2 <= usize::MAX
    &&& s.active_tab_idx <= s.tabs.len() + 1
    &&& s.tabs.len() > 0 ==> s.active_tab_idx <= s.tabs.len()
    &&& s.permissions_granted ==> s.pending.len() == 0
    &&& forall|i: int| 0 <= i < s.pending.len() ==> !(#[trigger] s.pending[i] is PermissionRequestResult)
    &&& forall|i: int| 0 <= i < s.pending.len() ==> event_wf(#[trigger] s.pending[i])
}

/// Events whose content fits the machine: a tab list shorter than
/// `usize::MAX - 1` (any list in memory is).
pub open spec fn event_wf(e: EventView) -> bool {
    e matches EventView::TabUpdate(tabs, _) ==> tabs.len() + 2 <= usize::MAX
}

// ---------------------------------------------------------------------------
// Command outputs
// ---------------------------------------------------------------------------

/// The outputs with `n`'s output set to `x`.
pub open spec fn set_output(v: Seq<(Seq<char>, Seq<char>)>, n: Seq<char>, x: Seq<char>) -> Seq<(Seq<char>, Seq<char>)>
    decreases v.len(),
{
    if v.len() == 0 {
        seq![(n, x)]
    } else if v[0].0 == n {
        seq![(n, x)] + v.drop_first()
    } else {
        seq![v[0]] + set_output(v.drop_first(), n, x)
    }
}

/// Reading an output gives back the last one set for that name, and setting
/// one leaves the others alone.
pub proof fn law_output_read_after_write(v: Seq<(Seq<char>, Seq<char>)>, n: Seq<char>, x: Seq<char>, m: Seq<char>)
    ensures
        lookup(set_output(v, n, x), m) == if m == n {
            Some(x)
        } else {
            lookup(v, m)
        },
    decreases v.len(),
{
    let r = set_output(v, n, x);
    assert(r.len() > 0);
    assert(lookup(r, m) == if r[0].0 == m {
        Some(r[0].1)
    } else {
        lookup(r.drop_first(), m)
    });
    if v.len() > 0 {
        assert(lookup(v, m) == if v[0].0 == m {
            Some(v[0].1)
        } else {
            lookup(v.drop_first(), m)
        });
    }
    if v.len() == 0 {
        assert(r[0] == (n, x));
        assert(r.drop_first() =~= Seq::<(Seq<char>, Seq<char>)>::empty());
    } else if v[0].0 == n {
        assert(r[0] == (n, x));
        assert(r.drop_first() =~= v.drop_first());
    } else {
        assert(r[0] == v[0]);
        law_output_read_after_write(v.drop_first(), n, x, m);
        assert(r.drop_first() =~= set_output(v.drop_first(), n, x));
    }
}

fn set_output_exec(outputs: &mut Vec<(String, String)>, name: String, value: String)
    ensures
        entry_views(final(outputs)@) == set_output(entry_views(old(outputs)@), name@, value@),
{
    let ghost v = entry_views(outputs@);
    let mut i: usize = 0;
    assert(v.take(0) =~= Seq::<(Seq<char>, Seq<char>)>::empty());
    while i < outputs.len() && !crate::text::same_text(outputs[i].0.as_str(), name.as_str())
        invariant
            i <= outputs@.len(),
            outputs@ == old(outputs)@,
            v == entry_views(outputs@),
            forall|k: int| 0 <= k < i ==> (#[trigger] v[k]).0 != name@,
        decreases outputs@.len() - i,
    {
        i = i + 1;
    }
    proof {
        lemma_set_output_prefix(v, name@, value@, i as int);
    }
    if i < outputs.len() {
        assert(v[i as int].0 == name@);
        outputs.set(i, (name, value));
        assert(v.skip(i as int).drop_first() =~= v.skip(i + 1));
        assert(entry_views(outputs@) =~= v.take(i as int) + set_output(v.skip(i as int), name@, value@));
    } else {
        assert(i == v.len());
        outputs.push((name, value));
        assert(v.skip(i as int) =~= Seq::<(Seq<char>, Seq<char>)>::empty());
        assert(entry_views(outputs@) =~= v.take(i as int) + set_output(v.skip(i as int), name@, value@));
    }
}

proof fn lemma_set_output_prefix(v: Seq<(Seq<char>, Seq<char>)>, n: Seq<char>, x: Seq<char>, i: int)
    requires
        0 <= i <= v.len(),
        forall|k: int| 0 <= k < i ==> (#[trigger] v[k]).0 != n,
    ensures
        set_output(v, n, x) == v.take(i) + set_output(v.skip(i), n, x),
    decreases i,
{
    if i > 0 {
        lemma_set_output_prefix(v.drop_first(), n, x, i - 1);
        assert(v.drop_first().take(i - 1) =~= v.take(i).drop_first());
        assert(v.drop_first().skip(i - 1) =~= v.skip(i));
        assert(v.take(i) =~= seq![v[0]] + v.take(i).drop_first());
    } else {
        assert(v.skip(0) =~= v);
    }
}

} // verus!

verus! {

// ---------------------------------------------------------------------------
// Rows
// ---------------------------------------------------------------------------

/// Rows taken by a newline-separated format: none when empty, else its
/// number of lines (at least one).
pub open spec fn content_rows(f: Seq<char>) -> int {
    if f.len() == 0 {
        0
    } else if text_lines(f).len() >= 1 {
        text_lines(f).len() as int
    } else {
        1
    }
}

/// Rows of the header: its lines and its separator (shown only under a
/// non-empty header).
pub open spec fn header_rows(cfg: &StyleConfig) -> int {
    let hc = content_rows(cfg.format_header@);
    hc + if cfg.header_border@.len() > 0 && hc > 0 { 1int } else { 0 }
}

/// The footer rows assumed when mapping a click: the full footer format's
/// lines and its separator.
pub open spec fn click_footer_rows(cfg: &StyleConfig) -> int {
    if cfg.format_footer@.len() == 0 {
        0
    } else {
        text_lines(cfg.format_footer@).len() + if cfg.footer_border@.len() > 0 { 1int } else { 0 }
    }
}

/// `a - b`, or 0 when `b` is larger.
pub open spec fn sat(a: int, b: int) -> int {
    if a >= b { a - b } else { 0 }
}

/// The 1-based index of the tab to switch to for a click on `row`:
/// `Some(None)` for no tab, `None` where the row arithmetic overflows `usize`.
/// Clicks on the header do nothing; a click on the upper marker goes to the
/// tab just above the shown ones; a click below the shown tabs goes to the
/// tab just below them.
pub open spec fn spec_tab_at_row(cfg: &StyleConfig, tab_count: int, active_idx: int, last_rows: int, row: int) -> Option<Option<usize>> {
    if tab_count == 0 {
        Some(None)
    } else if header_rows(cfg) + cfg.padding_top > usize::MAX {
        None
    } else {
        let hr = header_rows(cfg) + cfg.padding_top;
        if row < hr {
            Some(None)
        } else {
            let rit = row - hr;
            let ai = sat(active_idx, 1);
            let avail = sat(sat(last_rows, hr), click_footer_rows(cfg));
            let r = visible_range(tab_count, avail, ai);
            let (s, e, above) = (r.0, r.1, r.2);
            if above > 0 && rit == 0 {
                Some(Some((sat(s, 1) + 1) as usize))
            } else {
                let ric = sat(rit, if above > 0 { 1int } else { 0 });
                if s + ric > usize::MAX {
                    None
                } else if s + ric < e && s + ric < tab_count {
                    Some(Some((s + ric + 1) as usize))
                } else if ric >= e - s {
                    Some(Some((if e <= sat(tab_count, 1) { e } else { sat(tab_count, 1) } + 1) as usize))
                } else {
                    Some(None)
                }
            }
        }
    }
}

/// Rows of a format, computed.
pub fn format_rows(f: &String) -> (n: usize)
    ensures
        n == content_rows(f@),
{
    let v = chars_of(f.as_str());
    if v.len() == 0 {
        return 0;
    }
    let l = lines_of(&v);
    assert(l@.len() == text_lines(f@).len()) by {
        assert(crate::text::views(l@).len() == l@.len());
    }
    if l.len() >= 1 {
        l.len()
    } else {
        1
    }
}

fn header_rows_exec(cfg: &StyleConfig) -> (n: usize)
    requires
        cfg.wf(),
    ensures
        n == header_rows(cfg),
{
    let hc = format_rows(&cfg.format_header);
    if !cfg.header_border.as_str().is_empty() && hc > 0 {
        proof {
            lemma_lines_bound(cfg.format_header@);
        }
        hc + 1
    } else {
        hc
    }
}

/// A text has no more lines than characters.
proof fn lemma_lines_bound(f: Seq<char>)
    ensures
        content_rows(f) <= f.len(),
{
    crate::text::lemma_split_len(f, '\n');
}

} // verus!

verus! {

fn click_footer_rows_exec(cfg: &StyleConfig) -> (n: usize)
    requires
        cfg.wf(),
    ensures
        n == click_footer_rows(cfg),
{
    let v = chars_of(cfg.format_footer.as_str());
    if v.len() == 0 {
        return 0;
    }
    let l = lines_of(&v);
    proof {
        crate::text::lemma_split_len(cfg.format_footer@, '\n');
        assert(crate::text::views(l@).len() == l@.len());
    }
    if !cfg.footer_border.as_str().is_empty() {
        l.len() + 1
    } else {
        l.len()
    }
}

impl State {
    /// The 1-based index of the tab to switch to for a click on `row`
    /// (see `spec_tab_at_row`); `None` where the row arithmetic overflows.
    pub fn get_tab_at_row(&self, row: usize) -> (r: Option<Option<usize>>)
        requires
            self.style.wf(),
            self.tabs@.len() + 2 <= usize::MAX,
        ensures
            r == spec_tab_at_row(&self.style, self.tabs@.len() as int, self.active_tab_idx as int, self.last_rows as int, row as int),
    {
        if self.tabs.len() == 0 {
            return Some(None);
        }
        let hrows = header_rows_exec(&self.style);
        let header_rows = match hrows.checked_add(self.style.padding_top) {
            Some(h) => h,
            None => return None,
        };
        if row < header_rows {
            return Some(None);
        }
        let row_in_tabs = row - header_rows;
        let tab_count = self.tabs.len();
        let active_index = self.active_tab_idx.saturating_sub(1);
        let footer_rows = click_footer_rows_exec(&self.style);
        let available_rows = self.last_rows.saturating_sub(header_rows).saturating_sub(footer_rows);
        let (start_index, end_index, tabs_above, _below) = calculate_visible_range(tab_count, available_rows, active_index);
        let content_start_row: usize = if tabs_above > 0 { 1 } else { 0 };
        if tabs_above > 0 && row_in_tabs == 0 {
            let target = start_index.saturating_sub(1);
            return Some(Some(target + 1));
        }
        let row_in_content = row_in_tabs.saturating_sub(content_start_row);
        let clicked_tab_index = match start_index.checked_add(row_in_content) {
            Some(c) => c,
            None => return None,
        };
        if clicked_tab_index < end_index && clicked_tab_index < tab_count {
            return Some(Some(clicked_tab_index + 1));
        }
        proof {
            lemma_range_ordered(tab_count as int, available_rows as int, active_index as int);
        }
        if row_in_content >= end_index - start_index {
            let target = if end_index <= tab_count.saturating_sub(1) { end_index } else { tab_count.saturating_sub(1) };
            return Some(Some(target + 1));
        }
        Some(None)
    }
}

/// The visible range never ends before it starts, nor past one beyond the
/// active tab's neighbours.
pub proof fn lemma_range_ordered(count: int, rows: int, active: int)
    requires
        count >= 0,
        active >= 0,
    ensures
        0 <= visible_range(count, rows, active).0 <= visible_range(count, rows, active).1,
        visible_range(count, rows, active).1 <= if count > active + 1 { count } else { active + 1 },
{
    if count > 0 && count > rows && rows > 2 {
        lemma_grow_ordered(active, active + 1, rows - 3, false, count);
    }
}

proof fn lemma_grow_ordered(start: int, end: int, room: int, alt: bool, count: int)
    requires
        0 <= start < end,
    ensures
        0 <= crate::layout::grow(start, end, room, alt, count).0 <= start,
        end <= crate::layout::grow(start, end, room, alt, count).1,
        crate::layout::grow(start, end, room, alt, count).1 <= if count > end { count } else { end },
    decreases room,
{
    if room > 0 {
        if !alt && start > 0 {
            lemma_grow_ordered(start - 1, end, room - 1, true, count);
        } else if alt && end < count {
            lemma_grow_ordered(start, end + 1, room - 1, false, count);
        } else if start > 0 {
            lemma_grow_ordered(start - 1, end, room - 1, !alt, count);
        } else if end < count {
            lemma_grow_ordered(start, end + 1, room - 1, !alt, count);
        }
    }
}

} // verus!

verus! {

// ---------------------------------------------------------------------------
// Events
// ---------------------------------------------------------------------------

/// Position (in the list) of the first active tab.
pub open spec fn first_active(tabs: Seq<TabView>) -> Option<int>
    decreases tabs.len(),
{
    if tabs.len() == 0 {
        None
    } else if tabs[0].active {
        Some(0)
    } else {
        match first_active(tabs.drop_first()) {
            Some(i) => Some(i + 1),
            None => None,
        }
    }
}

/// The 1-based index of the active tab of a tab list (1 when none is).
pub open spec fn active_index_of(tabs: Seq<TabView>) -> int {
    match first_active(tabs) {
        Some(i) => i + 1,
        None => 1,
    }
}

/// The actions that run the due commands.
pub open spec fn run_actions(d: Seq<(Seq<char>, Seq<char>)>) -> Seq<ActionView> {
    d.map_values(|x: (Seq<char>, Seq<char>)| ActionView::RunCommand(x.0, x.1))
}

/// The outputs after a command finished: on success (exit code 0, or none)
/// its trimmed standard output; on failure the previous output, or `"--"`
/// when there is none.
pub open spec fn outputs_after(
    outs: Seq<(Seq<char>, Seq<char>)>,
    n: Seq<char>,
    code: Option<i32>,
    stdout: Seq<u8>,
) -> Seq<(Seq<char>, Seq<char>)> {
    if code == Some(0i32) || code is None {
        set_output(outs, n, trim(lossy_utf8(stdout)))
    } else if lookup(outs, n) is None {
        set_output(outs, n, "--"@)
    } else {
        outs
    }
}

/// One event handled once permissions are granted: the next state, whether
/// to render, and the actions for the host. `None` where mapping a click
/// overflows `usize`.
pub open spec fn spec_step(cfg: &StyleConfig, s: StateView, e: EventView) -> Option<(StateView, bool, Seq<ActionView>)> {
    match e {
        EventView::ModeUpdate(m, changed) => Some((StateView { mode: m, ..s }, changed, Seq::empty())),
        EventView::TabUpdate(tabs, changed) => {
            let ai = active_index_of(tabs);
            Some((StateView { tabs: tabs, active_tab_idx: ai as usize, ..s }, s.active_tab_idx != ai || changed, Seq::empty()))
        },
        EventView::PaneUpdate(p) => Some((StateView { panes: p, ..s }, true, Seq::empty())),
        EventView::Mouse(Mouse::LeftClick(row, _)) => match spec_tab_at_row(
            cfg,
            s.tabs.len() as int,
            s.active_tab_idx as int,
            s.last_rows as int,
            (row as usize) as int,
        ) {
            None => None,
            Some(None) => Some((s, false, Seq::empty())),
            Some(Some(idx)) => Some((s, false, seq![ActionView::SwitchTab(idx as u32)])),
        },
        EventView::Mouse(Mouse::ScrollUp(_)) => {
            let prev = if sat(s.active_tab_idx as int, 1) >= 1 { sat(s.active_tab_idx as int, 1) } else { 1 };
            Some((s, false, seq![ActionView::SwitchTab(prev as u32)]))
        },
        EventView::Mouse(Mouse::ScrollDown(_)) => {
            let next = if s.active_tab_idx + 1 <= s.tabs.len() { s.active_tab_idx + 1 } else { s.tabs.len() as int };
            Some((s, false, seq![ActionView::SwitchTab(next as u32)]))
        },
        EventView::Timer => Some((
            StateView { commands: s.commands.map_values(|c: CmdView| tick_one(c)), ..s },
            false,
            run_actions(due_list(s.commands)) + if s.timer_ticking {
                seq![ActionView::SetTimeout]
            } else {
                Seq::empty()
            },
        )),
        EventView::RunCommandResult(code, stdout, ctx) => match lookup(ctx, "command_name"@) {
            Some(n) => Some((StateView { outputs: outputs_after(s.outputs, n, code, stdout), ..s }, true, Seq::empty())),
            None => Some((s, false, Seq::empty())),
        },
        _ => Some((s, false, Seq::empty())),
    }
}

/// Handling the pending events in order.
pub open spec fn replay(cfg: &StyleConfig, s: StateView, evs: Seq<EventView>) -> Option<(StateView, Seq<ActionView>)>
    decreases evs.len(),
{
    if evs.len() == 0 {
        Some((s, Seq::empty()))
    } else {
        match spec_step(cfg, s, evs[0]) {
            None => None,
            Some((s1, _r, a1)) => match replay(cfg, s1, evs.drop_first()) {
                None => None,
                Some((s2, a2)) => Some((s2, a1 + a2)),
            },
        }
    }
}

/// An event: a granted permission makes the plugin unselectable, starts the
/// timer when commands are configured, and handles the events received
/// before, in order; a refused one changes nothing; other events wait until
/// permissions are granted, and are then handled as `spec_step` says.
pub open spec fn spec_update(cfg: &StyleConfig, s: StateView, e: EventView) -> Option<(StateView, bool, Seq<ActionView>)> {
    match e {
        EventView::PermissionRequestResult(true) => {
            let start = s.commands.len() > 0 && !s.timer_ticking;
            let s1 = StateView {
                permissions_granted: true,
                is_selectable: false,
                timer_ticking: s.timer_ticking || start,
                pending: Seq::empty(),
                ..s
            };
            let a0 = seq![ActionView::SetSelectable(false)] + if start {
                seq![ActionView::SetTimeout]
            } else {
                Seq::empty()
            };
            match replay(cfg, s1, s.pending) {
                None => None,
                Some((s2, a)) => Some((s2, true, a0 + a)),
            }
        },
        EventView::PermissionRequestResult(false) => Some((s, false, Seq::empty())),
        _ => if !s.permissions_granted {
            Some((StateView { pending: s.pending.push(e), ..s }, false, Seq::empty()))
        } else {
            spec_step(cfg, s, e)
        },
    }
}

} // verus!

verus! {

proof fn lemma_first_active_bound(tabs: Seq<TabView>)
    ensures
        first_active(tabs) matches Some(i) ==> 0 <= i < tabs.len(),
        1 <= active_index_of(tabs) <= tabs.len() + 1,
    decreases tabs.len(),
{
    if tabs.len() > 0 && !tabs[0].active {
        lemma_first_active_bound(tabs.drop_first());
    }
}

fn first_active_exec(tabs: &Vec<TabInfo>) -> (r: usize)
    requires
        tabs@.len() + 2 <= usize::MAX,
    ensures
        r == active_index_of(tab_views(tabs@)),
{
    let ghost tv = tab_views(tabs@);
    let mut i: usize = 0;
    assert(tv.skip(0) =~= tv);
    while i < tabs.len()
        invariant
            i <= tabs@.len(),
            tabs@.len() + 2 <= usize::MAX,
            tv == tab_views(tabs@),
            first_active(tv) == match first_active(tv.skip(i as int)) {
                Some(k) => Some(k + i),
                None => None,
            },
        decreases tabs@.len() - i,
    {
        assert(tv.skip(i as int)[0] == tabs@[i as int]@);
        assert(tv.skip(i as int).drop_first() =~= tv.skip(i + 1));
        if tabs[i].active {
            return i + 1;
        }
        i = i + 1;
    }
    1
}

impl State {
    /// Handles one event once permissions are granted (see `spec_step`).
    pub fn handle_event(&mut self, event: Event) -> (r: Option<(bool, Vec<Action>)>)
        requires
            state_wf(&old(self).style, old(self)@),
            event_wf(event@),
        ensures
            final(self).style == old(self).style,
            match spec_step(&old(self).style, old(self)@, event@) {
                None => r is None,
                Some((s, b, a)) => r matches Some((b2, acts)) && b2 == b && action_views(acts@) == a
                    && final(self)@ == s,
            },
            r is Some ==> state_wf(&final(self).style, final(self)@),
    {
        let ghost s = self@;
        let mut actions: Vec<Action> = Vec::new();
        match event {
            Event::ModeUpdate { mode, changed } => {
                self.mode_info = mode;
                assert(action_views(actions@) =~= Seq::<ActionView>::empty());
                Some((changed, actions))
            },
            Event::TabUpdate { tabs, changed } => {
                let ai = first_active_exec(&tabs);
                proof {
                    lemma_first_active_bound(tab_views(tabs@));
                }
                let render = self.active_tab_idx != ai || changed;
                self.active_tab_idx = ai;
                self.tabs = tabs;
                assert(action_views(actions@) =~= Seq::<ActionView>::empty());
                Some((render, actions))
            },
            Event::PaneUpdate(p) => {
                self.pane_manifest = p;
                assert(action_views(actions@) =~= Seq::<ActionView>::empty());
                Some((true, actions))
            },
            Event::Mouse(m) => {
                match m {
                    Mouse::LeftClick(row, _col) => {
                        match self.get_tab_at_row(#[verifier::truncate] (row as usize)) {
                            None => return None,
                            Some(Some(idx)) => {
                                actions.push(Action::SwitchTab(#[verifier::truncate] (idx as u32)));
                            },
                            Some(None) => {},
                        }
                    },
                    Mouse::ScrollUp(_) => {
                        let a = self.active_tab_idx.saturating_sub(1);
                        let prev: usize = if a >= 1 { a } else { 1 };
                        actions.push(Action::SwitchTab(prev as u32));
                    },
                    Mouse::ScrollDown(_) => {
                        let next: usize = if self.active_tab_idx + 1 <= self.tabs.len() {
                            self.active_tab_idx + 1
                        } else {
                            self.tabs.len()
                        };
                        actions.push(Action::SwitchTab(next as u32));
                    },
                    Mouse::Other => {},
                }
                let ghost expected = spec_step(&self.style, s, event@).unwrap();
                assert(action_views(actions@) =~= expected.2);
                Some((false, actions))
            },
            Event::Timer => {
                let due = tick_commands(&mut self.commands);
                let mut i: usize = 0;
                let ghost dv = due@.map_values(|d: (String, String)| (d.0@, d.1@));
                assert(action_views(actions@) =~= run_actions(dv.take(0)));
                while i < due.len()
                    invariant
                        i <= due@.len(),
                        dv == due@.map_values(|d: (String, String)| (d.0@, d.1@)),
                        action_views(actions@) == run_actions(dv.take(i as int)),
                    decreases due@.len() - i,
                {
                    let (name, command) = (due[i].0.clone(), due[i].1.clone());
                    let ghost before = action_views(actions@);
                    assert(dv[i as int] == (name@, command@));
                    actions.push(Action::RunCommand { name, command });
                    assert(action_views(actions@) =~= before.push(ActionView::RunCommand(dv[i as int].0, dv[i as int].1)));
                    assert(dv.take(i + 1) =~= dv.take(i as int).push(dv[i as int]));
                    assert(action_views(actions@) =~= run_actions(dv.take(i + 1)));
                    i = i + 1;
                }
                assert(dv.take(i as int) =~= dv);
                if self.timer_ticking {
                    actions.push(Action::SetTimeout);
                }
                let ghost expected = spec_step(&self.style, s, event@).unwrap();
                assert(action_views(actions@) =~= expected.2);
                proof {
                    crate::commands::lemma_tick_keeps_names(s.commands);
                }
                Some((false, actions))
            },
            Event::RunCommandResult { exit_code, stdout, context } => {
                assert(action_views(actions@) =~= Seq::<ActionView>::empty());
                match lookup_entry(&context, "command_name") {
                    Some(name) => {
                        if exit_code == Some(0i32) || exit_code.is_none() {
                            let text = utf8_lossy(stdout.as_slice());
                            let tv = chars_of(text.as_str());
                            let t = trimmed(&tv);
                            set_output_exec(&mut self.command_outputs, name, string_of(&t));
                        } else {
                            if lookup_entry(&self.command_outputs, name.as_str()).is_none() {
                                set_output_exec(&mut self.command_outputs, name, "--".to_owned());
                            }
                        }
                        Some((true, actions))
                    },
                    None => Some((false, actions)),
                }
            },
            _ => {
                assert(action_views(actions@) =~= Seq::<ActionView>::empty());
                Some((false, actions))
            },
        }
    }
}

} // verus!

verus! {

/// The rest of a replay, after the actions already produced.
pub open spec fn replay_from(cfg: &StyleConfig, s: StateView, evs: Seq<EventView>, done: Seq<ActionView>) -> Option<(StateView, Seq<ActionView>)> {
    match replay(cfg, s, evs) {
        None => None,
        Some((s2, a)) => Some((s2, done + a)),
    }
}

impl State {
    /// Handles an event (see `spec_update`): the returned flag says whether
    /// to render, the actions are for the host to perform in order. `None`
    /// where mapping a click overflows `usize`.
    pub fn update(&mut self, event: Event) -> (r: Option<(bool, Vec<Action>)>)
        requires
            state_wf(&old(self).style, old(self)@),
            event_wf(event@),
        ensures
            final(self).style == old(self).style,
            match spec_update(&old(self).style, old(self)@, event@) {
                None => r is None,
                Some((s, b, a)) => r matches Some((b2, acts)) && b2 == b && action_views(acts@) == a
                    && final(self)@ == s,
            },
            r is Some ==> state_wf(&final(self).style, final(self)@),
    {
        let ghost s0 = self@;
        let mut actions: Vec<Action> = Vec::new();
        match event {
            Event::PermissionRequestResult(granted) => {
                if !granted {
                    assert(action_views(actions@) =~= Seq::<ActionView>::empty());
                    return Some((false, actions));
                }
                self.permissions_granted = true;
                self.is_selectable = false;
                actions.push(Action::SetSelectable(false));
                if self.commands.len() > 0 && !self.timer_ticking {
                    self.timer_ticking = true;
                    actions.push(Action::SetTimeout);
                }
                let mut pending: Vec<Event> = Vec::new();
                std::mem::swap(&mut pending, &mut self.pending_events);
                let ghost evs = s0.pending;
                let ghost s1 = self@;
                assert(s1 =~= StateView {
                    permissions_granted: true,
                    is_selectable: false,
                    timer_ticking: s0.timer_ticking || (s0.commands.len() > 0 && !s0.timer_ticking),
                    pending: Seq::empty(),
                    ..s0
                });
                assert(pending@.map_values(|e: Event| e@) =~= evs);
                assert(s1.pending =~= Seq::<EventView>::empty());
                let ghost target = replay(&self.style, s1, evs);
                let mut replayed: Vec<Action> = Vec::new();
                assert forall|i: int| 0 <= i < pending@.len() implies !(#[trigger] pending@[i]@ is PermissionRequestResult)
                    && event_wf(pending@[i]@) by {
                    assert(pending@.map_values(|e: Event| e@)[i] == pending@[i]@);
                    assert(evs[i] == s0.pending[i]);
                }
                assert(replay_from(&self.style, self@, pending@.map_values(|e: Event| e@), action_views(replayed@)) =~= target) by {
                    assert(action_views(replayed@) =~= Seq::<ActionView>::empty());
                    if replay(&self.style, s1, evs) is Some {
                        assert(Seq::<ActionView>::empty() + (replay(&self.style, s1, evs)->0).1 =~= (replay(&self.style, s1, evs)->0).1);
                    }
                }
                while pending.len() > 0
                    invariant
                        state_wf(&self.style, self@),
                        self.style == old(self).style,
                        s0 == old(self)@,
                        s1 == (StateView {
                            permissions_granted: true,
                            is_selectable: false,
                            timer_ticking: s0.timer_ticking || (s0.commands.len() > 0 && !s0.timer_ticking),
                            pending: Seq::empty(),
                            ..s0
                        }),
                        evs == s0.pending,
                        target == replay(&self.style, s1, evs),
                        granted,
                        event@ == EventView::PermissionRequestResult(true),
                        self@.pending.len() == 0,
                        forall|i: int| 0 <= i < pending@.len() ==> !(#[trigger] pending@[i]@ is PermissionRequestResult),
                        forall|i: int| 0 <= i < pending@.len() ==> event_wf(#[trigger] pending@[i]@),
                        replay_from(&self.style, self@, pending@.map_values(|e: Event| e@), action_views(replayed@)) == target,
                    decreases pending@.len(),
                {
                    let ghost pv = pending@.map_values(|e: Event| e@);
                    let ghost before = self@;
                    let ghost done = action_views(replayed@);
                    let e = pending.remove(0);
                    assert(pv[0] == e@);
                    assert(pending@.map_values(|e: Event| e@) =~= pv.drop_first());
                    match self.handle_event(e) {
                        None => {
                            assert(replay(&self.style, before, pv) is None);
                            return None;
                        },
                        Some((_render, mut acts)) => {
                            let ghost a1 = action_views(acts@);
                            replayed.append(&mut acts);
                            assert(action_views(replayed@) =~= done + a1);
                            proof {
                                let rest = replay(&self.style, self@, pv.drop_first());
                                if rest is Some {
                                    assert(done + (a1 + (rest->0).1) =~= (done + a1) + (rest->0).1);
                                }
                            }
                        },
                    }
                }
                assert(pending@.map_values(|e: Event| e@) =~= Seq::<EventView>::empty());
                let ghost a0 = action_views(actions@);
                let ghost ar = action_views(replayed@);
                actions.append(&mut replayed);
                assert(action_views(actions@) =~= a0 + ar);
                Some((true, actions))
            },
            other => {
                if !self.permissions_granted {
                    self.pending_events.push(other);
                    assert(self@.pending =~= s0.pending.push(other@));
                    assert(action_views(actions@) =~= Seq::<ActionView>::empty());
                    Some((false, actions))
                } else {
                    self.handle_event(other)
                }
            },
        }
    }
}

} // verus!

verus! {

// ---------------------------------------------------------------------------
// Rendering
// ---------------------------------------------------------------------------

/// Two optional line lists, joined.
pub open spec fn ocat(a: Option<Seq<Seq<char>>>, b: Option<Seq<Seq<char>>>) -> Option<Seq<Seq<char>>> {
    match (a, b) {
        (Some(x), Some(y)) => Some(x + y),
        _ => None,
    }
}

/// An optional line as a list of one line.
pub open spec fn one(l: Option<Seq<char>>) -> Option<Seq<Seq<char>>> {
    match l {
        Some(x) => Some(seq![x]),
        None => None,
    }
}

/// `n` copies of a line (nothing is built, so nothing fails, when `n` is 0).
pub open spec fn copies(l: Option<Seq<char>>, n: nat) -> Option<Seq<Seq<char>>> {
    if n == 0 {
        Some(Seq::empty())
    } else {
        match l {
            Some(x) => Some(Seq::new(n, |_i: int| x)),
            None => None,
        }
    }
}

/// An overflow marker line: the format with `{count}` replaced by the count.
#[verifier::opaque]
pub open spec fn marker_line(cfg: &StyleConfig, fmt: Seq<char>, n: nat, cols: usize) -> Option<Seq<char>> {
    let text = crate::text::replace_all(fmt, "{count}"@, crate::text::decimal(n));
    crate::render::spec_build_line(cfg.border@, crate::format::spec_styled_string(text), cols, false)
}

/// The line of the tab at position `i` of the list.
#[verifier::opaque]
pub open spec fn entry_line(cfg: &StyleConfig, s: StateView, i: int, cols: usize) -> Option<Seq<char>> {
    let tab = s.tabs[i];
    let fmt = if tab.active { cfg.format_active@ } else { cfg.format@ };
    if i + cfg.start_index > usize::MAX {
        None
    } else {
        crate::render::spec_build_line(
            cfg.border@,
            crate::render::spec_expand_tab(cfg, s.mode.0, s.panes, fmt, tab, (i + cfg.start_index) as usize),
            cols,
            tab.active,
        )
    }
}

/// The lines of the tabs at positions `i..end` (positions past the list
/// give no line).
pub open spec fn entry_lines(cfg: &StyleConfig, s: StateView, i: int, end: int, cols: usize) -> Option<Seq<Seq<char>>>
    decreases end - i,
{
    if i >= end {
        Some(Seq::empty())
    } else {
        ocat(
            if 0 <= i < s.tabs.len() { one(entry_line(cfg, s, i, cols)) } else { Some(Seq::empty()) },
            entry_lines(cfg, s, i + 1, end, cols),
        )
    }
}

/// The tab list in `avail` rows: the upper marker, the visible tabs, the
/// lower marker.
#[verifier::opaque]
pub open spec fn spec_tab_lines(cfg: &StyleConfig, s: StateView, avail: usize, cols: usize) -> Option<Seq<Seq<char>>> {
    if s.tabs.len() == 0 || avail == 0 {
        Some(Seq::empty())
    } else {
        let r = visible_range(s.tabs.len() as int, avail as int, sat(s.active_tab_idx as int, 1));
        ocat(
            ocat(
                if r.2 > 0 { one(marker_line(cfg, cfg.overflow_above@, r.2 as nat, cols)) } else { Some(Seq::empty()) },
                entry_lines(cfg, s, r.0, r.1, cols),
            ),
            if r.3 > 0 { one(marker_line(cfg, cfg.overflow_below@, r.3 as nat, cols)) } else { Some(Seq::empty()) },
        )
    }
}

/// The lines of a header or footer.
pub open spec fn generic_lines(cfg: &StyleConfig, s: StateView, ls: Seq<Seq<char>>, tier: crate::config::RenderTier, cols: usize) -> Option<Seq<Seq<char>>>
    decreases ls.len(),
{
    if ls.len() == 0 {
        Some(Seq::empty())
    } else {
        ocat(
            one(crate::render::spec_build_plain(crate::render::spec_expand_generic(cfg, s.mode, s.outputs, ls[0], tier), cols)),
            generic_lines(cfg, s, ls.drop_first(), tier, cols),
        )
    }
}

} // verus!

verus! {

/// The tier for a width.
pub open spec fn tier_of(cfg: &StyleConfig, cols: usize) -> crate::config::RenderTier {
    crate::config::tier_for(cfg.minimal_threshold, cfg.compact_threshold, cols)
}

/// Rows of the header's separator.
pub open spec fn header_sep_rows(cfg: &StyleConfig) -> int {
    if cfg.header_border@.len() > 0 && content_rows(cfg.format_header@) > 0 { 1int } else { 0 }
}

/// Rows of the footer at a width: its lines and its separator.
pub open spec fn footer_rows(cfg: &StyleConfig, cols: usize) -> int {
    let fc = content_rows(crate::config::footer_format_for(cfg, tier_of(cfg, cols)));
    fc + if cfg.footer_border@.len() > 0 && fc > 0 { 1int } else { 0 }
}

/// The upper part of the sidebar: top padding, header lines, header
/// separator, then the tab list in the rows left by the rest.
pub open spec fn spec_top(cfg: &StyleConfig, s: StateView, rows: usize, cols: usize) -> Option<Seq<Seq<char>>> {
    let hc = content_rows(cfg.format_header@);
    let hb = header_sep_rows(cfg);
    let avail = sat(sat(sat(rows as int, hc + hb), footer_rows(cfg, cols)), cfg.padding_top as int) as usize;
    ocat(
        ocat(
            ocat(
                copies(crate::render::spec_empty_line(cfg.border@, cols), cfg.padding_top as nat),
                if hc > 0 { generic_lines(cfg, s, text_lines(cfg.format_header@), tier_of(cfg, cols), cols) } else { Some(Seq::empty()) },
            ),
            if hb > 0 { Some(seq![crate::render::spec_separator(cfg.header_border@, cols)]) } else { Some(Seq::empty()) },
        ),
        spec_tab_lines(cfg, s, avail, cols),
    )
}

/// The lower part of the sidebar after `used` lines: blank lines down to
/// the footer, the footer separator, the footer lines.
pub open spec fn spec_bottom(cfg: &StyleConfig, s: StateView, rows: usize, cols: usize, used: nat) -> Option<Seq<Seq<char>>> {
    let ff = crate::config::footer_format_for(cfg, tier_of(cfg, cols));
    let fc = content_rows(ff);
    let gap = sat(sat(rows as int, footer_rows(cfg, cols)), used as int) as nat;
    ocat(
        ocat(
            copies(crate::render::spec_empty_line(cfg.border@, cols), gap),
            if cfg.footer_border@.len() > 0 && fc > 0 { Some(seq![crate::render::spec_separator(cfg.footer_border@, cols)]) } else { Some(Seq::empty()) },
        ),
        if fc > 0 { generic_lines(cfg, s, text_lines(ff), tier_of(cfg, cols), cols) } else { Some(Seq::empty()) },
    )
}

/// The whole sidebar: the upper part, then the lower part, cut to `rows`
/// lines. `None` where a width overflows `usize`.
pub open spec fn spec_sidebar(cfg: &StyleConfig, s: StateView, rows: usize, cols: usize) -> Option<Seq<Seq<char>>> {
    match spec_top(cfg, s, rows, cols) {
        None => None,
        Some(t) => match spec_bottom(cfg, s, rows, cols, t.len()) {
            None => None,
            Some(b) => {
                let all = t + b;
                Some(if all.len() > rows { all.take(rows as int) } else { all })
            },
        },
    }
}

/// The texts of a list of lines.
pub open spec fn string_views(v: Seq<String>) -> Seq<Seq<char>> {
    v.map_values(|x: String| x@)
}

fn push_line(lines: &mut Vec<String>, l: Option<String>) -> (ok: bool)
    ensures
        ok == (l is Some),
        ok ==> string_views(final(lines)@) == string_views(old(lines)@) + seq![l->0@],
        !ok ==> final(lines)@ == old(lines)@,
{
    match l {
        Some(x) => {
            let ghost before = string_views(lines@);
            lines.push(x);
            assert(string_views(lines@) =~= before + seq![l->0@]);
            true
        },
        None => false,
    }
}

impl State {
    fn marker_line_exec(&self, fmt: &String, n: usize, cols: usize) -> (r: Option<String>)
        ensures
            opt_view(r) == marker_line(&self.style, fmt@, n as nat, cols),
    {
        proof {
            reveal_strlit("{count}");
            reveal(marker_line);
        }
        let text = crate::render::expand_overflow_format(fmt.as_str(), n);
        let tv = chars_of(text.as_str());
        let st = crate::format::styled_chars(&tv);
        crate::render::build_line(self.style.border.as_str(), &st, cols, false)
    }

    fn entry_line_exec(&self, i: usize, cols: usize) -> (r: Option<String>)
        requires
            i < self.tabs@.len(),
        ensures
            opt_view(r) == entry_line(&self.style, self@, i as int, cols),
    {
        proof {
            reveal(entry_line);
        }
        let tab = &self.tabs[i];
        assert(self@.tabs[i as int] == tab@);
        let format = if tab.active { &self.style.format_active } else { &self.style.format };
        let index = match i.checked_add(self.style.start_index) {
            Some(x) => x,
            None => return None,
        };
        let c = crate::render::expand_tmux_format(&self.style, self.mode_info.mode, &self.pane_manifest, format.as_str(), tab, index);
        crate::render::build_line(self.style.border.as_str(), &c, cols, tab.active)
    }

    /// The tab list in `available_rows` rows (see `spec_tab_lines`).
    pub fn render_tab_lines(&self, available_rows: usize, cols: usize) -> (r: Option<Vec<String>>)
        requires
            state_wf(&self.style, self@),
        ensures
            match spec_tab_lines(&self.style, self@, available_rows, cols) {
                None => r is None,
                Some(ls) => r matches Some(v) && string_views(v@) == ls,
            },
    {
        proof {
            reveal(spec_tab_lines);
        }
        let mut lines: Vec<String> = Vec::new();
        if self.tabs.len() == 0 || available_rows == 0 {
            assert(string_views(lines@) =~= Seq::<Seq<char>>::empty());
            return Some(lines);
        }
        let tab_count = self.tabs.len();
        let active_index = self.active_tab_idx.saturating_sub(1);
        let (start_index, end_index, tabs_above, tabs_below) = calculate_visible_range(tab_count, available_rows, active_index);
        proof {
            lemma_range_ordered(tab_count as int, available_rows as int, active_index as int);
        }
        let ghost cfg = &self.style;
        let ghost sv = self@;
        let ghost top: Option<Seq<Seq<char>>> = if tabs_above > 0 {
            one(marker_line(cfg, cfg.overflow_above@, tabs_above as nat, cols))
        } else {
            Some(Seq::empty())
        };
        if tabs_above > 0 {
            let l = self.marker_line_exec(&self.style.overflow_above, tabs_above, cols);
            if !push_line(&mut lines, l) {
                return None;
            }
        }
        assert(top == Some(string_views(lines@)));
        let mut i = start_index;
        assert(entry_lines(cfg, sv, start_index as int, end_index as int, cols) == ocat(Some(Seq::<Seq<char>>::empty()), entry_lines(cfg, sv, start_index as int, end_index as int, cols))) by {
            if entry_lines(cfg, sv, start_index as int, end_index as int, cols) is Some {
                assert(Seq::<Seq<char>>::empty() + entry_lines(cfg, sv, start_index as int, end_index as int, cols)->0 =~= entry_lines(cfg, sv, start_index as int, end_index as int, cols)->0);
            }
        }
        let ghost mid_done: Seq<Seq<char>> = Seq::empty();
        let ghost bottom: Option<Seq<Seq<char>>> = if tabs_below > 0 {
            one(marker_line(cfg, cfg.overflow_below@, tabs_below as nat, cols))
        } else {
            Some(Seq::empty())
        };
        assert(spec_tab_lines(cfg, sv, available_rows, cols) == ocat(ocat(top, entry_lines(cfg, sv, start_index as int, end_index as int, cols)), bottom));
        while i < end_index
            invariant
                start_index <= i <= end_index,
                spec_tab_lines(cfg, sv, available_rows, cols) == ocat(ocat(top, entry_lines(cfg, sv, start_index as int, end_index as int, cols)), bottom),
                cfg == &self.style,
                sv == self@,
                top is Some,
                string_views(lines@) == top->0 + mid_done,
                entry_lines(cfg, sv, start_index as int, end_index as int, cols) == ocat(Some(mid_done), entry_lines(cfg, sv, i as int, end_index as int, cols)),
            decreases end_index - i,
        {
            let ghost rest = entry_lines(cfg, sv, i + 1, end_index as int, cols);
            let ghost old_mid = mid_done;
            if i < self.tabs.len() {
                let l = self.entry_line_exec(i, cols);
                let ghost lv = opt_view(l);
                if !push_line(&mut lines, l) {
                    return None;
                }
                proof {
                    mid_done = mid_done + seq![lv->0];
                    assert(string_views(lines@) =~= top->0 + mid_done);
                    if rest is Some {
                        assert(old_mid + (seq![lv->0] + rest->0) =~= mid_done + rest->0);
                    }
                }
            } else {
                proof {
                    if rest is Some {
                        assert(old_mid + (Seq::<Seq<char>>::empty() + rest->0) =~= mid_done + rest->0);
                    }
                }
            }
            i = i + 1;
        }
        let ghost full = entry_lines(cfg, sv, start_index as int, end_index as int, cols);
        assert(full == Some(mid_done));
        if tabs_below > 0 {
            let l = self.marker_line_exec(&self.style.overflow_below, tabs_below, cols);
            if !push_line(&mut lines, l) {
                return None;
            }
        }
        assert(string_views(lines@) =~= spec_tab_lines(&self.style, self@, available_rows, cols)->0);
        Some(lines)
    }
}

} // verus!

verus! {

/// The optional line lists as values.
pub open spec fn opt_lines(o: Option<Vec<String>>) -> Option<Seq<Seq<char>>> {
    match o {
        Some(v) => Some(string_views(v@)),
        None => None,
    }
}

fn ocat_exec(a: Option<Vec<String>>, b: Option<Vec<String>>) -> (r: Option<Vec<String>>)
    ensures
        opt_lines(r) == ocat(opt_lines(a), opt_lines(b)),
{
    match (a, b) {
        (Some(mut x), Some(mut y)) => {
            let ghost xv = string_views(x@);
            let ghost yv = string_views(y@);
            x.append(&mut y);
            assert(string_views(x@) =~= xv + yv);
            Some(x)
        },
        _ => None,
    }
}

fn one_exec(l: Option<String>) -> (r: Option<Vec<String>>)
    ensures
        opt_lines(r) == one(opt_view(l)),
{
    match l {
        Some(x) => {
            let mut v: Vec<String> = Vec::new();
            v.push(x);
            assert(string_views(v@) =~= seq![v@[0]@]);
            Some(v)
        },
        None => None,
    }
}

fn none_exec() -> (r: Option<Vec<String>>)
    ensures
        opt_lines(r) == Some(Seq::<Seq<char>>::empty()),
{
    let v: Vec<String> = Vec::new();
    assert(string_views(v@) =~= Seq::<Seq<char>>::empty());
    Some(v)
}

fn copies_exec(l: &Option<String>, n: usize) -> (r: Option<Vec<String>>)
    ensures
        opt_lines(r) == copies(opt_view(*l), n as nat),
{
    if n == 0 {
        return none_exec();
    }
    match l {
        Some(x) => {
            let mut v: Vec<String> = Vec::new();
            let mut i: usize = 0;
            while i < n
                invariant
                    i <= n,
                    v@.len() == i,
                    forall|k: int| 0 <= k < i ==> #[trigger] v@[k]@ == x@,
                decreases n - i,
            {
                v.push(x.clone());
                i = i + 1;
            }
            assert(string_views(v@) =~= Seq::new(n as nat, |_i: int| x@));
            Some(v)
        },
        None => None,
    }
}

impl State {
    fn generic_lines_exec(&self, ls: &Vec<Vec<char>>, tier: crate::config::RenderTier, cols: usize) -> (r: Option<Vec<String>>)
        requires
            state_wf(&self.style, self@),
        ensures
            opt_lines(r) == generic_lines(&self.style, self@, crate::text::views(ls@), tier, cols),
    {
        let ghost lv = crate::text::views(ls@);
        let mut out: Vec<String> = Vec::new();
        let mut i: usize = 0;
        assert(lv.skip(0) =~= lv);
        assert(string_views(out@) =~= Seq::<Seq<char>>::empty());
        while i < ls.len()
            invariant
                i <= ls@.len(),
                lv == crate::text::views(ls@),
                state_wf(&self.style, self@),
                generic_lines(&self.style, self@, lv, tier, cols) == ocat(Some(string_views(out@)), generic_lines(&self.style, self@, lv.skip(i as int), tier, cols)),
            decreases ls@.len() - i,
        {
            let ghost before = string_views(out@);
            let ghost rest = generic_lines(&self.style, self@, lv.skip(i + 1), tier, cols);
            assert(lv.skip(i as int)[0] == ls@[i as int]@);
            assert(lv.skip(i as int).drop_first() =~= lv.skip(i + 1));
            let text = string_of(&ls[i]);
            let c = crate::render::expand_generic_format(&self.style, &self.mode_info, &self.command_outputs, text.as_str(), tier);
            let line = crate::render::build_plain_line(&c, cols);
            if !push_line(&mut out, line) {
                return None;
            }
            proof {
                if rest is Some {
                    assert(before + (seq![opt_view(line)->0] + rest->0) =~= string_views(out@) + rest->0);
                }
            }
            i = i + 1;
        }
        assert(lv.skip(i as int) =~= Seq::<Seq<char>>::empty());
        assert(string_views(out@) + Seq::<Seq<char>>::empty() =~= string_views(out@));
        Some(out)
    }

    fn top_lines(&self, rows: usize, cols: usize) -> (r: Option<Vec<String>>)
        requires
            state_wf(&self.style, self@),
        ensures
            opt_lines(r) == spec_top(&self.style, self@, rows, cols),
    {
        let tier = self.style.render_tier(cols);
        let hc = format_rows(&self.style.format_header);
        let hb: usize = if !self.style.header_border.as_str().is_empty() && hc > 0 { 1 } else { 0 };
        let footer_rows = self.footer_rows_exec(cols);
        proof {
            lemma_lines_bound(self.style.format_header@);
        }
        let header_rows = hc + hb;
        let available = rows.saturating_sub(header_rows).saturating_sub(footer_rows).saturating_sub(self.style.padding_top);
        let blank = crate::render::build_empty_line(self.style.border.as_str(), cols);
        let padding = copies_exec(&blank, self.style.padding_top);
        let header = if hc > 0 {
            let hv = chars_of(self.style.format_header.as_str());
            let hl = crate::text::lines_of(&hv);
            self.generic_lines_exec(&hl, tier, cols)
        } else {
            none_exec()
        };
        let header_sep = if hb > 0 {
            one_exec(Some(crate::render::build_separator_line(self.style.header_border.as_str(), cols)))
        } else {
            none_exec()
        };
        let tabs = self.render_tab_lines(available, cols);
        ocat_exec(ocat_exec(ocat_exec(padding, header), header_sep), tabs)
    }

    fn footer_rows_exec(&self, cols: usize) -> (n: usize)
        requires
            self.style.wf(),
        ensures
            n == footer_rows(&self.style, cols),
    {
        let tier = self.style.render_tier(cols);
        let ff = self.style.active_footer_format(tier);
        let fc = format_rows(ff);
        proof {
            lemma_lines_bound(ff@);
        }
        if !self.style.footer_border.as_str().is_empty() && fc > 0 {
            fc + 1
        } else {
            fc
        }
    }

    fn bottom_lines(&self, rows: usize, cols: usize, used: usize) -> (r: Option<Vec<String>>)
        requires
            state_wf(&self.style, self@),
        ensures
            opt_lines(r) == spec_bottom(&self.style, self@, rows, cols, used as nat),
    {
        let tier = self.style.render_tier(cols);
        let ff = self.style.active_footer_format(tier).clone();
        let fc = format_rows(&ff);
        let footer_rows = self.footer_rows_exec(cols);
        let gap = rows.saturating_sub(footer_rows).saturating_sub(used);
        let blank = crate::render::build_empty_line(self.style.border.as_str(), cols);
        let filler = copies_exec(&blank, gap);
        let footer_sep = if !self.style.footer_border.as_str().is_empty() && fc > 0 {
            one_exec(Some(crate::render::build_separator_line(self.style.footer_border.as_str(), cols)))
        } else {
            none_exec()
        };
        let footer = if fc > 0 {
            let fv = chars_of(ff.as_str());
            let fl = crate::text::lines_of(&fv);
            self.generic_lines_exec(&fl, tier, cols)
        } else {
            none_exec()
        };
        ocat_exec(ocat_exec(filler, footer_sep), footer)
    }

    /// The sidebar's lines (see `spec_sidebar`).
    pub fn render_sidebar(&self, rows: usize, cols: usize) -> (r: Option<Vec<String>>)
        requires
            state_wf(&self.style, self@),
        ensures
            opt_lines(r) == spec_sidebar(&self.style, self@, rows, cols),
    {
        let t = match self.top_lines(rows, cols) {
            Some(t) => t,
            None => return None,
        };
        let bottom = self.bottom_lines(rows, cols, t.len());
        let mut all = match ocat_exec(Some(t), bottom) {
            Some(a) => a,
            None => return None,
        };
        let ghost before = string_views(all@);
        all.truncate(rows);
        assert(string_views(all@) =~= if before.len() > rows { before.take(rows as int) } else { before });
        Some(all)
    }

    /// Renders the sidebar for a pane of `rows` by `cols`: nothing before
    /// permissions are granted or while there is no tab. Remembers `rows`
    /// for mapping clicks. `None` where a width overflows `usize`.
    pub fn render(&mut self, rows: usize, cols: usize) -> (r: Option<Vec<String>>)
        requires
            state_wf(&old(self).style, old(self)@),
        ensures
            final(self)@ == (StateView { last_rows: rows, ..old(self)@ }),
            final(self).style == old(self).style,
            opt_lines(r) == if !old(self).permissions_granted || old(self).tabs@.len() == 0 {
                Some(Seq::<Seq<char>>::empty())
            } else {
                spec_sidebar(&final(self).style, final(self)@, rows, cols)
            },
    {
        self.last_rows = rows;
        if !self.permissions_granted || self.tabs.len() == 0 {
            return none_exec();
        }
        self.render_sidebar(rows, cols)
    }
}

} // verus!

verus! {

/// A message sent to the plugin, from the selectability `sel`: the new
/// selectability and the actions. `set_selectable` with payload `true` or
/// `false` sets it, `toggle_selectable` flips it, and anything else changes
/// nothing.
pub open spec fn spec_pipe(sel: bool, name: Seq<char>, payload: Option<Seq<char>>) -> (bool, Seq<ActionView>) {
    if name == "set_selectable"@ && payload == Some("true"@) {
        (true, seq![ActionView::SetSelectable(true)])
    } else if name == "set_selectable"@ && payload == Some("false"@) {
        (false, seq![ActionView::SetSelectable(false)])
    } else if name != "set_selectable"@ && name == "toggle_selectable"@ {
        (!sel, seq![ActionView::SetSelectable(!sel)])
    } else {
        (sel, Seq::empty())
    }
}

/// Toggling twice restores the selectability; setting it is idempotent and
/// forgets what it was.
pub proof fn law_pipe_toggle_and_set(sel: bool, p: Option<Seq<char>>, q: Option<Seq<char>>, v: Seq<char>)
    requires
        v == "true"@ || v == "false"@,
    ensures
        spec_pipe(spec_pipe(sel, "toggle_selectable"@, p).0, "toggle_selectable"@, q).0 == sel,
        spec_pipe(spec_pipe(sel, "set_selectable"@, Some(v)).0, "set_selectable"@, Some(v)) == spec_pipe(
            sel,
            "set_selectable"@,
            Some(v),
        ),
        spec_pipe(sel, "set_selectable"@, Some(v)) == spec_pipe(!sel, "set_selectable"@, Some(v)),
{
    reveal_strlit("toggle_selectable");
    reveal_strlit("set_selectable");
    reveal_strlit("true");
    reveal_strlit("false");
    assert("toggle_selectable"@ != "set_selectable"@) by {
        assert("toggle_selectable"@[0] != "set_selectable"@[0]);
    }
    assert("true"@ != "false"@) by {
        assert("true"@[0] != "false"@[0]);
    }
}

impl State {
    /// The state before any event: no tab, normal mode, no permission, no
    /// command, the initial configuration.
    pub fn new() -> (s: State)
        ensures
            s.style.is_initial(),
            state_wf(&s.style, s@),
            s@.tabs.len() == 0,
            s.active_tab_idx == 0,
            s.mode_info@ == (InputMode::Normal, None::<Seq<char>>),
            s@.panes.len() == 0,
            s.last_rows == 0,
            !s.permissions_granted,
            !s.is_selectable,
            s@.pending.len() == 0,
            s@.commands.len() == 0,
            s@.outputs.len() == 0,
            !s.timer_ticking,
    {
        let s = State {
            tabs: Vec::new(),
            active_tab_idx: 0,
            mode_info: ModeInfo { mode: InputMode::Normal, session_name: None },
            pane_manifest: Vec::new(),
            style: StyleConfig::default(),
            last_rows: 0,
            permissions_granted: false,
            is_selectable: false,
            pending_events: Vec::new(),
            commands: Vec::new(),
            command_outputs: Vec::new(),
            timer_ticking: false,
        };
        assert(cmd_names(s@.commands) =~= Seq::<Seq<char>>::empty());
        s
    }

    /// Reads the configuration entries (see `configured`) and returns the
    /// commands they declare, in order of name, for the host to schedule
    /// with `add_command` once it has read their intervals.
    pub fn load(&mut self, entries: &Vec<(String, String)>) -> (r: Vec<crate::commands::CommandRequest>)
        requires
            state_wf(&old(self).style, old(self)@),
            crate::config::entries_fit(entry_views(entries@)),
        ensures
            crate::config::configured(&old(self).style, &final(self).style, entry_views(entries@)),
            final(self)@ == old(self)@,
            state_wf(&final(self).style, final(self)@),
            strictly_sorted(r@.map_values(|q: crate::commands::CommandRequest| q.name@)),
            forall|n: Seq<char>|
                crate::commands::declares(entry_views(entries@), n) <==> r@.map_values(
                    |q: crate::commands::CommandRequest| q.name@,
                ).contains(n),
            forall|i: int|
                0 <= i < r@.len() ==> lookup(entry_views(entries@), crate::commands::command_key(#[trigger] r@[i].name@))
                    == Some(r@[i].command@) && opt_view(r@[i].interval) == lookup(
                    entry_views(entries@),
                    crate::commands::interval_key(r@[i].name@),
                ),
    {
        self.style.apply_entries(entries);
        crate::commands::command_requests(entries)
    }

    /// Schedules a command (replacing one of the same name); it runs at the
    /// next tick, then every `period` ticks.
    pub fn add_command(&mut self, name: String, command: String, period: TickPeriod)
        requires
            state_wf(&old(self).style, old(self)@),
        ensures
            final(self)@ == (StateView {
                commands: insert_command(old(self)@.commands, new_command(name@, command@, period)),
                ..old(self)@
            }),
            final(self).style == old(self).style,
            state_wf(&final(self).style, final(self)@),
    {
        install_command(&mut self.commands, name, command, period);
    }

    /// Handles a message sent to the plugin: `set_selectable` with payload
    /// `true` or `false`, or `toggle_selectable`. Never asks for a render.
    pub fn pipe(&mut self, name: &str, payload: Option<&str>) -> (r: (bool, Vec<Action>))
        requires
            state_wf(&old(self).style, old(self)@),
        ensures
            !r.0,
            final(self).style == old(self).style,
            state_wf(&final(self).style, final(self)@),
            final(self)@ == (StateView { is_selectable: final(self).is_selectable, ..old(self)@ }),
            (final(self).is_selectable, action_views(r.1@)) == spec_pipe(
                old(self).is_selectable,
                name@,
                match payload {
                    Some(p) => Some(p@),
                    None => None,
                },
            ),
    {
        let mut actions: Vec<Action> = Vec::new();
        if crate::text::same_text(name, "set_selectable") {
            match payload {
                Some(p) => {
                    if crate::text::same_text(p, "true") {
                        self.is_selectable = true;
                        actions.push(Action::SetSelectable(true));
                        assert(action_views(actions@) =~= seq![ActionView::SetSelectable(true)]);
                    } else if crate::text::same_text(p, "false") {
                        self.is_selectable = false;
                        actions.push(Action::SetSelectable(false));
                        assert(action_views(actions@) =~= seq![ActionView::SetSelectable(false)]);
                    }
                },
                None => {},
            }
        } else if crate::text::same_text(name, "toggle_selectable") {
            self.is_selectable = !self.is_selectable;
            actions.push(Action::SetSelectable(self.is_selectable));
            assert(action_views(actions@) =~= seq![ActionView::SetSelectable(self.is_selectable)]);
        }
        (false, actions)
    }
}

} // verus!

verus! {

/// After a command reports, reading the outputs gives, for that command,
/// its trimmed output when it succeeded (exit code 0, or none), else its
/// previous output, or `"--"` when it had none: a failure never erases an
/// output. The other commands' outputs are unchanged.
pub proof fn law_command_result_output(
    outs: Seq<(Seq<char>, Seq<char>)>,
    n: Seq<char>,
    code: Option<i32>,
    stdout: Seq<u8>,
    m: Seq<char>,
)
    ensures
        lookup(outputs_after(outs, n, code, stdout), m) == if m != n {
            lookup(outs, m)
        } else if code == Some(0i32) || code is None {
            Some(trim(lossy_utf8(stdout)))
        } else if lookup(outs, n) is Some {
            lookup(outs, n)
        } else {
            Some("--"@)
        },
{
    law_output_read_after_write(outs, n, trim(lossy_utf8(stdout)), m);
    law_output_read_after_write(outs, n, "--"@, m);
}

} // verus!

verus! {

proof fn lemma_replay_push(cfg: &StyleConfig, s: StateView, evs: Seq<EventView>, e: EventView)
    ensures
        replay(cfg, s, evs.push(e)) == match replay(cfg, s, evs) {
            None => None,
            Some((s2, a)) => match spec_step(cfg, s2, e) {
                None => None,
                Some((s3, _r, a3)) => Some((s3, a + a3)),
            },
        },
    decreases evs.len(),
{
    if evs.len() == 0 {
        assert(evs.push(e)[0] == e);
        assert(evs.push(e).drop_first() =~= Seq::<EventView>::empty());
        assert(replay(cfg, s, evs) == Some((s, Seq::<ActionView>::empty())));
        match spec_step(cfg, s, e) {
            None => {},
            Some((s3, _r, a3)) => {
                assert(replay(cfg, s3, Seq::<EventView>::empty()) == Some((s3, Seq::<ActionView>::empty())));
                assert(a3 + Seq::<ActionView>::empty() =~= a3);
                assert(Seq::<ActionView>::empty() + a3 =~= a3);
            },
        }
    } else {
        assert(evs.push(e)[0] == evs[0]);
        assert(evs.push(e).drop_first() =~= evs.drop_first().push(e));
        match spec_step(cfg, s, evs[0]) {
            None => {},
            Some((s1, _r, a1)) => {
                lemma_replay_push(cfg, s1, evs.drop_first(), e);
                match replay(cfg, s1, evs.drop_first()) {
                    None => {},
                    Some((s2, a2)) => match spec_step(cfg, s2, e) {
                        None => {},
                        Some((s3, _r3, a3)) => {
                            assert(a1 + (a2 + a3) =~= (a1 + a2) + a3);
                        },
                    },
                }
            },
        }
    }
}

/// An event that arrives before permissions are granted waits, and is
/// handled when they are, after the events that came before it, exactly as
/// if it had arrived just after the grant.
pub proof fn law_events_wait_for_permission(cfg: &StyleConfig, s: StateView, e: EventView)
    requires
        !s.permissions_granted,
        !(e is PermissionRequestResult),
    ensures
        spec_update(cfg, s, e) == Some((StateView { pending: s.pending.push(e), ..s }, false, Seq::<ActionView>::empty())),
        ({
            let queued = StateView { pending: s.pending.push(e), ..s };
            let grant = EventView::PermissionRequestResult(true);
            match spec_update(cfg, s, grant) {
                None => spec_update(cfg, queued, grant) is None,
                Some((g, _r, a)) => match spec_update(cfg, g, e) {
                    None => spec_update(cfg, queued, grant) is None,
                    Some((g2, _r2, a2)) => spec_update(cfg, queued, grant) == Some((g2, true, a + a2)),
                },
            }
        }),
{
    let queued = StateView { pending: s.pending.push(e), ..s };
    let start = s.commands.len() > 0 && !s.timer_ticking;
    let s1 = StateView {
        permissions_granted: true,
        is_selectable: false,
        timer_ticking: s.timer_ticking || start,
        pending: Seq::empty(),
        ..s
    };
    let s1q = StateView {
        permissions_granted: true,
        is_selectable: false,
        timer_ticking: queued.timer_ticking || start,
        pending: Seq::empty(),
        ..queued
    };
    assert(s1q == s1);
    lemma_replay_push(cfg, s1, s.pending, e);
    let a0 = seq![ActionView::SetSelectable(false)] + if start {
        seq![ActionView::SetTimeout]
    } else {
        Seq::empty()
    };
    match replay(cfg, s1, s.pending) {
        None => {},
        Some((g, a)) => {
            assert(g.permissions_granted) by {
                lemma_replay_keeps_grant(cfg, s1, s.pending);
            }
            match spec_step(cfg, g, e) {
                None => {},
                Some((g2, _r2, a2)) => {
                    assert(a0 + (a + a2) =~= (a0 + a) + a2);
                },
            }
        },
    }
}

proof fn lemma_replay_keeps_grant(cfg: &StyleConfig, s: StateView, evs: Seq<EventView>)
    requires
        s.permissions_granted,
    ensures
        replay(cfg, s, evs) matches Some((s2, _a)) ==> s2.permissions_granted,
    decreases evs.len(),
{
    if evs.len() > 0 {
        match spec_step(cfg, s, evs[0]) {
            None => {},
            Some((s1, _r, _a1)) => {
                lemma_replay_keeps_grant(cfg, s1, evs.drop_first());
            },
        }
    }
}

} // verus!

verus! {

proof fn lemma_split_single(s: Seq<char>, sep: char)
    ensures
        split_at_char_len_one(s, sep) ==> crate::text::split_at_char(s, sep)[0] == s,
    decreases s.len(),
{
    crate::text::lemma_split_nonempty(s, sep);
    if s.len() > 0 {
        lemma_split_single(s.drop_last(), sep);
        crate::text::lemma_split_nonempty(s.drop_last(), sep);
        if s.last() != sep && split_at_char_len_one(s, sep) {
            assert(s.drop_last().push(s.last()) =~= s);
        }
    }
}

spec fn split_at_char_len_one(s: Seq<char>, sep: char) -> bool {
    crate::text::split_at_char(s, sep).len() == 1
}

/// A non-empty text has at least one line, so its rows are its lines.
proof fn lemma_rows_are_lines(f: Seq<char>)
    ensures
        content_rows(f) == text_lines(f).len(),
{
    crate::text::lemma_split_nonempty(f, '\n');
    lemma_split_single(f, '\n');
}

proof fn lemma_copies_len(l: Option<Seq<char>>, n: nat)
    ensures
        copies(l, n) matches Some(x) ==> x.len() == n,
{
}

proof fn lemma_generic_lines_len(cfg: &StyleConfig, s: StateView, ls: Seq<Seq<char>>, tier: crate::config::RenderTier, cols: usize)
    ensures
        generic_lines(cfg, s, ls, tier, cols) matches Some(x) ==> x.len() == ls.len(),
    decreases ls.len(),
{
    if ls.len() > 0 {
        lemma_generic_lines_len(cfg, s, ls.drop_first(), tier, cols);
    }
}

proof fn lemma_entry_lines_len(cfg: &StyleConfig, s: StateView, i: int, end: int, cols: usize)
    requires
        0 <= i,
        end <= s.tabs.len(),
    ensures
        entry_lines(cfg, s, i, end, cols) matches Some(x) ==> x.len() == if i < end { end - i } else { 0 },
    decreases end - i,
{
    if i < end {
        lemma_entry_lines_len(cfg, s, i + 1, end, cols);
    }
}

proof fn lemma_tab_lines_fit(cfg: &StyleConfig, s: StateView, avail: usize, cols: usize)
    requires
        state_wf(cfg, s),
    ensures
        spec_tab_lines(cfg, s, avail, cols) matches Some(x) ==> x.len() <= avail,
{
    reveal(spec_tab_lines);
    if s.tabs.len() > 0 && avail > 0 {
        let count = s.tabs.len() as int;
        let active = sat(s.active_tab_idx as int, 1);
        let r = visible_range(count, avail as int, active);
        lemma_range_ordered(count, avail as int, active);
        crate::layout::law_visible_range_fits(count, avail as int, active);
        lemma_entry_lines_len(cfg, s, r.0, r.1, cols);
    }
}

/// The sidebar always has exactly as many lines as the pane has rows; and
/// when the rows hold the top padding, the header and the footer, nothing
/// is cut, so the footer ends on the last row.
pub proof fn law_sidebar_fills_rows(cfg: &StyleConfig, s: StateView, rows: usize, cols: usize)
    requires
        state_wf(cfg, s),
    ensures
        spec_sidebar(cfg, s, rows, cols) matches Some(ls) ==> ls.len() == rows,
        rows >= cfg.padding_top + header_rows(cfg) + footer_rows(cfg, cols) ==> (
        spec_top(cfg, s, rows, cols) matches Some(t) ==> (
        spec_bottom(cfg, s, rows, cols, t.len()) matches Some(b) ==> t.len() + b.len() == rows)),
{
    let tier = tier_of(cfg, cols);
    let ff = crate::config::footer_format_for(cfg, tier);
    lemma_rows_are_lines(ff);
    lemma_rows_are_lines(cfg.format_header@);
    lemma_generic_lines_len(cfg, s, text_lines(ff), tier, cols);
    lemma_generic_lines_len(cfg, s, text_lines(cfg.format_header@), tier, cols);
    let hc = content_rows(cfg.format_header@);
    let hb = header_sep_rows(cfg);
    let avail = sat(sat(sat(rows as int, hc + hb), footer_rows(cfg, cols)), cfg.padding_top as int) as usize;
    lemma_tab_lines_fit(cfg, s, avail, cols);
    lemma_copies_len(crate::render::spec_empty_line(cfg.border@, cols), cfg.padding_top as nat);
    match spec_top(cfg, s, rows, cols) {
        None => {},
        Some(t) => {
            let gap = sat(sat(rows as int, footer_rows(cfg, cols)), t.len() as int) as nat;
            lemma_copies_len(crate::render::spec_empty_line(cfg.border@, cols), gap);
        },
    }
}

} // verus!

verus! {

/// A click never selects a tab that does not exist: whatever row is
/// clicked, the tab it selects is between 1 and the number of tabs. When
/// all tabs fit in the rows left by the padding, the header and the footer,
/// a click on the row of the `k`-th tab of the list (counted from 0, just
/// below the header) selects tab `k + 1`.
pub proof fn law_click_selects_existing_tab(cfg: &StyleConfig, tab_count: int, active_idx: int, last_rows: int, row: int)
    requires
        0 <= tab_count,
        tab_count + 2 <= usize::MAX,
        0 <= active_idx <= tab_count,
        0 <= last_rows,
        0 <= row,
    ensures
        spec_tab_at_row(cfg, tab_count, active_idx, last_rows, row) matches Some(Some(i)) ==> 1 <= i <= tab_count,
        ({
            let hr = header_rows(cfg) + cfg.padding_top;
            let avail = sat(sat(last_rows, hr), click_footer_rows(cfg));
            hr <= usize::MAX && hr <= row < hr + tab_count && tab_count <= avail
                ==> spec_tab_at_row(cfg, tab_count, active_idx, last_rows, row) == Some(Some((row - hr + 1) as usize))
        }),
{
    if tab_count > 0 {
        let hr = header_rows(cfg) + cfg.padding_top;
        let avail = sat(sat(last_rows, hr), click_footer_rows(cfg));
        lemma_range_ordered(tab_count, avail, sat(active_idx, 1));
    }
}

} // verus!

verus! {

/// Mouse input only ever switches to a tab that exists: a click, a scroll
/// up (never above the first tab) and a scroll down (never past the last
/// tab) each ask for a tab between 1 and the number of tabs, and change
/// nothing in the state.
pub proof fn law_mouse_switches_to_existing_tab(cfg: &StyleConfig, s: StateView, m: Mouse)
    requires
        state_wf(cfg, s),
        s.tabs.len() > 0,
        s.tabs.len() <= u32::MAX,
    ensures
        spec_step(cfg, s, EventView::Mouse(m)) matches Some((s2, _r, a)) ==> s2 == s && forall|k: int|
            0 <= k < a.len() ==> (#[trigger] a[k] matches ActionView::SwitchTab(i) && 1 <= i <= s.tabs.len()),
{
    match m {
        Mouse::LeftClick(row, _c) => {
            law_click_selects_existing_tab(
                cfg,
                s.tabs.len() as int,
                s.active_tab_idx as int,
                s.last_rows as int,
                (row as usize) as int,
            );
        },
        _ => {},
    }
}

} // verus!

verus! {

/// The rows the tab list gets when the sidebar is drawn in `rows` rows.
pub open spec fn tab_rows_avail(cfg: &StyleConfig, rows: usize, cols: usize) -> usize {
    sat(
        sat(sat(rows as int, content_rows(cfg.format_header@) + header_sep_rows(cfg)), footer_rows(cfg, cols)),
        cfg.padding_top as int,
    ) as usize
}

/// The tabs drawn when the sidebar was last drawn: `(start, end, above,
/// below)` as `visible_range` gives them.
pub open spec fn drawn_range(cfg: &StyleConfig, s: StateView, cols: usize) -> (int, int, int, int) {
    visible_range(s.tabs.len() as int, tab_rows_avail(cfg, s.last_rows, cols) as int, sat(s.active_tab_idx as int, 1))
}

/// The row on which the tab at position `i` of the list is drawn: below the
/// padding, the header and the upper marker.
pub open spec fn tab_row(cfg: &StyleConfig, s: StateView, cols: usize, i: int) -> int {
    let r = drawn_range(cfg, s, cols);
    cfg.padding_top + header_rows(cfg) + (if r.2 > 0 { 1int } else { 0 }) + (i - r.0)
}

proof fn lemma_entry_lines_index(cfg: &StyleConfig, s: StateView, a: int, b: int, cols: usize, k: int)
    requires
        0 <= a <= k < b <= s.tabs.len(),
    ensures
        entry_lines(cfg, s, a, b, cols) matches Some(x) ==> (entry_line(cfg, s, k, cols) matches Some(l) && x[k - a] == l),
    decreases b - a,
{
    if a < k {
        lemma_entry_lines_index(cfg, s, a + 1, b, cols, k);
        lemma_entry_lines_len(cfg, s, a + 1, b, cols);
    }
}

/// A click on the row where a tab was drawn switches to that tab, when the
/// footer in use is the full-width one (the one that clicks are mapped
/// with): the sidebar's line on that row is the tab's line, and the click
/// selects the tab's 1-based index.
pub proof fn law_click_on_drawn_tab(cfg: &StyleConfig, s: StateView, cols: usize, i: int)
    requires
        state_wf(cfg, s),
        crate::config::footer_format_for(cfg, tier_of(cfg, cols)) == cfg.format_footer@,
        drawn_range(cfg, s, cols).0 <= i < drawn_range(cfg, s, cols).1,
        0 <= i < s.tabs.len(),
    ensures
        spec_tab_at_row(cfg, s.tabs.len() as int, s.active_tab_idx as int, s.last_rows as int, tab_row(cfg, s, cols, i))
            == Some(Some((i + 1) as usize)),
        spec_sidebar(cfg, s, s.last_rows, cols) matches Some(ls) ==> (0 <= tab_row(cfg, s, cols, i) < ls.len()
            && entry_line(cfg, s, i, cols) == Some(ls[tab_row(cfg, s, cols, i)])),
{
    let rows = s.last_rows;
    let tier = tier_of(cfg, cols);
    let ff = crate::config::footer_format_for(cfg, tier);
    lemma_rows_are_lines(ff);
    lemma_rows_are_lines(cfg.format_header@);
    let count = s.tabs.len() as int;
    let active = sat(s.active_tab_idx as int, 1);
    let avail = tab_rows_avail(cfg, rows, cols);
    let r = drawn_range(cfg, s, cols);
    assert(avail > 0);
    lemma_header_rows_nonneg(cfg);
    assert(footer_rows(cfg, cols) == click_footer_rows(cfg));
    assert(header_rows(cfg) + cfg.padding_top < rows);
    assert(sat(sat(rows as int, header_rows(cfg) + cfg.padding_top), click_footer_rows(cfg)) == avail as int);
    lemma_range_ordered(count, avail as int, active);
    law_sidebar_fills_rows(cfg, s, rows, cols);
    // The tab list, and where tab `i` sits in it.
    let hc = content_rows(cfg.format_header@);
    let hb = header_sep_rows(cfg);
    lemma_generic_lines_len(cfg, s, text_lines(cfg.format_header@), tier, cols);
    lemma_copies_len(crate::render::spec_empty_line(cfg.border@, cols), cfg.padding_top as nat);
    lemma_tab_lines_fit(cfg, s, avail, cols);
    reveal(spec_tab_lines);
    lemma_entry_lines_index(cfg, s, r.0, r.1, cols, i);
    lemma_entry_lines_len(cfg, s, r.0, r.1, cols);
    match spec_sidebar(cfg, s, rows, cols) {
        None => {},
        Some(ls) => {
            let t = spec_top(cfg, s, rows, cols)->0;
            let b = spec_bottom(cfg, s, rows, cols, t.len())->0;
            let row = tab_row(cfg, s, cols, i);
            assert(avail > 0);
            assert(rows >= cfg.padding_top + header_rows(cfg) + footer_rows(cfg, cols));
            assert(t.len() + b.len() == rows);
            assert(ls == t + b);
            assert(ls[row] == t[row]);
        },
    }
}

} // verus!

verus! {

proof fn lemma_header_rows_nonneg(cfg: &StyleConfig)
    ensures
        header_rows(cfg) >= 0,
        click_footer_rows(cfg) >= 0,
{
}

/// The upper marker is drawn on the first row below the padding and the
/// header when tabs are hidden above the list, and a click on it switches
/// to the tab just above the shown ones (to the first tab when no tab could
/// be shown), when the footer in use is the full-width one.
pub proof fn law_click_on_upper_marker(cfg: &StyleConfig, s: StateView, cols: usize)
    requires
        state_wf(cfg, s),
        crate::config::footer_format_for(cfg, tier_of(cfg, cols)) == cfg.format_footer@,
        s.tabs.len() > 0,
        tab_rows_avail(cfg, s.last_rows, cols) > 0,
        drawn_range(cfg, s, cols).2 > 0,
    ensures
        spec_tab_at_row(cfg, s.tabs.len() as int, s.active_tab_idx as int, s.last_rows as int, cfg.padding_top + header_rows(cfg))
            == Some(Some((sat(drawn_range(cfg, s, cols).0, 1) + 1) as usize)),
        drawn_range(cfg, s, cols).1 > drawn_range(cfg, s, cols).0 ==> sat(drawn_range(cfg, s, cols).0, 1) + 1
            == drawn_range(cfg, s, cols).0,
        spec_sidebar(cfg, s, s.last_rows, cols) matches Some(ls) ==> (cfg.padding_top + header_rows(cfg) < ls.len()
            && marker_line(cfg, cfg.overflow_above@, drawn_range(cfg, s, cols).2 as nat, cols) == Some(
            ls[cfg.padding_top + header_rows(cfg)],
        )),
{
    let rows = s.last_rows;
    let tier = tier_of(cfg, cols);
    let ff = crate::config::footer_format_for(cfg, tier);
    lemma_rows_are_lines(ff);
    lemma_rows_are_lines(cfg.format_header@);
    let count = s.tabs.len() as int;
    let active = sat(s.active_tab_idx as int, 1);
    let avail = tab_rows_avail(cfg, rows, cols);
    let r = drawn_range(cfg, s, cols);
    lemma_header_rows_nonneg(cfg);
    assert(footer_rows(cfg, cols) == click_footer_rows(cfg));
    assert(header_rows(cfg) + cfg.padding_top < rows);
    assert(sat(sat(rows as int, header_rows(cfg) + cfg.padding_top), click_footer_rows(cfg)) == avail as int);
    lemma_range_ordered(count, avail as int, active);
    law_sidebar_fills_rows(cfg, s, rows, cols);
    lemma_generic_lines_len(cfg, s, text_lines(cfg.format_header@), tier, cols);
    lemma_copies_len(crate::render::spec_empty_line(cfg.border@, cols), cfg.padding_top as nat);
    lemma_tab_lines_fit(cfg, s, avail, cols);
    reveal(spec_tab_lines);
    if r.1 > r.0 {
        crate::layout::law_active_tab_visible(count, avail as int, active);
    }
    match spec_sidebar(cfg, s, rows, cols) {
        None => {},
        Some(ls) => {
            let t = spec_top(cfg, s, rows, cols)->0;
            let b = spec_bottom(cfg, s, rows, cols, t.len())->0;
            let row = cfg.padding_top + header_rows(cfg);
            assert(rows >= cfg.padding_top + header_rows(cfg) + footer_rows(cfg, cols));
            assert(t.len() + b.len() == rows);
            assert(ls == t + b);
            assert(ls[row] == t[row]);
        },
    }
}

} // verus!

verus! {

proof fn lemma_first_active_is_first(tabs: Seq<TabView>)
    ensures
        first_active(tabs) matches Some(k) ==> 0 <= k < tabs.len() && tabs[k].active && forall|j: int|
            0 <= j < k ==> !(#[trigger] tabs[j]).active,
        first_active(tabs) is None ==> forall|j: int| 0 <= j < tabs.len() ==> !(#[trigger] tabs[j]).active,
    decreases tabs.len(),
{
    if tabs.len() > 0 && !tabs[0].active {
        let t = tabs.drop_first();
        lemma_first_active_is_first(t);
        match first_active(t) {
            Some(k) => {
                assert(first_active(tabs) == Some(k + 1));
                assert(tabs[k + 1] == t[k]);
                assert forall|j: int| 0 <= j < k + 1 implies !(#[trigger] tabs[j]).active by {
                    if j > 0 {
                        assert(tabs[j] == t[j - 1]);
                    }
                }
            },
            None => {
                assert(first_active(tabs) is None);
                assert forall|j: int| 0 <= j < tabs.len() implies !(#[trigger] tabs[j]).active by {
                    if j > 0 {
                        assert(tabs[j] == t[j - 1]);
                    }
                }
            },
        }
    }
}

/// Once permissions are granted, the host's updates are taken in at once:
/// - a mode update sets the mode, and asks for a render exactly when the
///   host reports a change;
/// - a tab update sets the tabs and makes the first active tab the active
///   one (the first tab when none is), and asks for a render when the host
///   reports a change or the active tab moved;
/// - a pane update sets the panes and always asks for a render;
/// - a command's result asks for a render when it names its command.
/// None of them changes anything else or asks the host to act.
pub proof fn law_updates_ask_for_render(cfg: &StyleConfig, s: StateView, e: EventView)
    requires
        s.permissions_granted,
        event_wf(e),
    ensures
        e matches EventView::ModeUpdate(m, changed) ==> spec_update(cfg, s, e) == Some(
            (StateView { mode: m, ..s }, changed, Seq::<ActionView>::empty()),
        ),
        e matches EventView::TabUpdate(tabs, changed) ==> (spec_update(cfg, s, e) matches Some((s2, r, a))
            && s2 == (StateView { tabs: tabs, active_tab_idx: s2.active_tab_idx, ..s })
            && r == (changed || s2.active_tab_idx != s.active_tab_idx)
            && a.len() == 0
            && ((exists|j: int| 0 <= j < tabs.len() && (#[trigger] tabs[j]).active) ==> (1 <= s2.active_tab_idx
            <= tabs.len() && tabs[s2.active_tab_idx - 1].active && forall|j: int|
                0 <= j < s2.active_tab_idx - 1 ==> !(#[trigger] tabs[j]).active))
            && (!(exists|j: int| 0 <= j < tabs.len() && (#[trigger] tabs[j]).active) ==> s2.active_tab_idx == 1)),
        e matches EventView::PaneUpdate(p) ==> spec_update(cfg, s, e) == Some(
            (StateView { panes: p, ..s }, true, Seq::<ActionView>::empty()),
        ),
        e matches EventView::RunCommandResult(code, out, ctx) ==> (spec_update(cfg, s, e) matches Some((s2, r, a))
            && r == (lookup(ctx, "command_name"@) is Some)
            && s2 == (StateView { outputs: s2.outputs, ..s })
            && a.len() == 0),
{
    if e is TabUpdate {
        let tabs = e->TabUpdate_0;
        lemma_first_active_is_first(tabs);
        lemma_first_active_bound(tabs);
        let ai = active_index_of(tabs);
        assert(tabs.len() + 2 <= usize::MAX);
        assert((ai as usize) as int == ai);
        let changed = e->TabUpdate_1;
        let s2 = StateView { tabs: tabs, active_tab_idx: ai as usize, ..s };
        assert(spec_update(cfg, s, e) == spec_step(cfg, s, e));
        assert(spec_step(cfg, s, e) == Some((s2, s.active_tab_idx != ai || changed, Seq::<ActionView>::empty())));
        match first_active(tabs) {
            Some(k) => {
                assert(ai == k + 1);
            },
            None => {
                assert(ai == 1);
            },
        }
        assert(s2 == (StateView { tabs: tabs, active_tab_idx: s2.active_tab_idx, ..s }));
    }
}

} // verus!
