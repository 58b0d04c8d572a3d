//! The sidebar's configuration: formats, indicators, per-mode labels and
//! colours, thresholds, and how configuration entries set them.

use vstd::prelude::*;
use vstd::string::*;
use crate::text::{chars_of, same_text, parse_unsigned, parse_unsigned_text, has_prefix, has_suffix, starts_with, ends_with, slice_chars, string_of};

verus! {

/// Rendering tier, chosen from the width available.
#[derive(Debug, Clone, Copy, PartialEq, Eq, Structural)]
pub enum RenderTier {
    Full,
    Compact,
    Minimal,
}

/// The input modes of the multiplexer.
#[derive(Debug, Clone, Copy, PartialEq, Eq, Structural)]
pub enum InputMode {
    Normal,
    Locked,
    Resize,
    Pane,
    Tab,
    Scroll,
    EnterSearch,
    Search,
    RenameTab,
    RenamePane,
    Session,
    Move,
    Prompt,
    Tmux,
}

/// The configuration key of a mode.
pub open spec fn mode_key(m: InputMode) -> Seq<char> {
    match m {
        InputMode::Normal => "normal"@,
        InputMode::Locked => "locked"@,
        InputMode::Resize => "resize"@,
        InputMode::Pane => "pane"@,
        InputMode::Tab => "tab"@,
        InputMode::Scroll => "scroll"@,
        InputMode::EnterSearch => "entersearch"@,
        InputMode::Search => "search"@,
        InputMode::RenameTab => "renametab"@,
        InputMode::RenamePane => "renamepane"@,
        InputMode::Session => "session"@,
        InputMode::Move => "move"@,
        InputMode::Prompt => "prompt"@,
        InputMode::Tmux => "tmux"@,
    }
}

/// The position of a mode in the per-mode tables.
pub open spec fn mode_index(m: InputMode) -> int {
    match m {
        InputMode::Normal => 0,
        InputMode::Locked => 1,
        InputMode::Resize => 2,
        InputMode::Pane => 3,
        InputMode::Tab => 4,
        InputMode::Scroll => 5,
        InputMode::EnterSearch => 6,
        InputMode::Search => 7,
        InputMode::RenameTab => 8,
        InputMode::RenamePane => 9,
        InputMode::Session => 10,
        InputMode::Move => 11,
        InputMode::Prompt => 12,
        InputMode::Tmux => 13,
    }
}

/// The mode at a position of the per-mode tables.
pub open spec fn mode_at(i: int) -> InputMode {
    if i == 0 { InputMode::Normal }
    else if i == 1 { InputMode::Locked }
    else if i == 2 { InputMode::Resize }
    else if i == 3 { InputMode::Pane }
    else if i == 4 { InputMode::Tab }
    else if i == 5 { InputMode::Scroll }
    else if i == 6 { InputMode::EnterSearch }
    else if i == 7 { InputMode::Search }
    else if i == 8 { InputMode::RenameTab }
    else if i == 9 { InputMode::RenamePane }
    else if i == 10 { InputMode::Session }
    else if i == 11 { InputMode::Move }
    else if i == 12 { InputMode::Prompt }
    else { InputMode::Tmux }
}

/// The number of modes.
pub const MODE_COUNT: usize = 14;

/// The configuration key of a mode.
pub fn input_mode_key(mode: InputMode) -> (k: &'static str)
    ensures
        k@ == mode_key(mode),
{
    match mode {
        InputMode::Normal => "normal",
        InputMode::Locked => "locked",
        InputMode::Resize => "resize",
        InputMode::Pane => "pane",
        InputMode::Tab => "tab",
        InputMode::Scroll => "scroll",
        InputMode::EnterSearch => "entersearch",
        InputMode::Search => "search",
        InputMode::RenameTab => "renametab",
        InputMode::RenamePane => "renamepane",
        InputMode::Session => "session",
        InputMode::Move => "move",
        InputMode::Prompt => "prompt",
        InputMode::Tmux => "tmux",
    }
}

pub fn mode_index_of(mode: InputMode) -> (i: usize)
    ensures
        i == mode_index(mode),
        i < MODE_COUNT,
{
    match mode {
        InputMode::Normal => 0,
        InputMode::Locked => 1,
        InputMode::Resize => 2,
        InputMode::Pane => 3,
        InputMode::Tab => 4,
        InputMode::Scroll => 5,
        InputMode::EnterSearch => 6,
        InputMode::Search => 7,
        InputMode::RenameTab => 8,
        InputMode::RenamePane => 9,
        InputMode::Session => 10,
        InputMode::Move => 11,
        InputMode::Prompt => 12,
        InputMode::Tmux => 13,
    }
}

pub fn mode_at_index(i: usize) -> (m: InputMode)
    requires
        i < MODE_COUNT,
    ensures
        m == mode_at(i as int),
        mode_index(m) == i,
{
    if i == 0 { InputMode::Normal }
    else if i == 1 { InputMode::Locked }
    else if i == 2 { InputMode::Resize }
    else if i == 3 { InputMode::Pane }
    else if i == 4 { InputMode::Tab }
    else if i == 5 { InputMode::Scroll }
    else if i == 6 { InputMode::EnterSearch }
    else if i == 7 { InputMode::Search }
    else if i == 8 { InputMode::RenameTab }
    else if i == 9 { InputMode::RenamePane }
    else if i == 10 { InputMode::Session }
    else if i == 11 { InputMode::Move }
    else if i == 12 { InputMode::Prompt }
    else { InputMode::Tmux }
}

/// The labels of one mode: full, compact and minimal.
#[derive(Debug)]
pub struct ModeLabels {
    pub full: String,
    pub compact: String,
    pub minimal: String,
}

impl View for ModeLabels {
    type V = (Seq<char>, Seq<char>, Seq<char>);

    open spec fn view(&self) -> (Seq<char>, Seq<char>, Seq<char>) {
        (self.full@, self.compact@, self.minimal@)
    }
}

impl Clone for ModeLabels {
    fn clone(&self) -> (r: Self)
        ensures
            r@ == self@,
    {
        ModeLabels { full: self.full.clone(), compact: self.compact.clone(), minimal: self.minimal.clone() }
    }
}

/// The labels that a mode has before any configuration.
pub open spec fn default_labels(m: InputMode) -> (Seq<char>, Seq<char>, Seq<char>) {
    match m {
        InputMode::Normal => ("NORMAL"@, "NRM"@, "N"@),
        InputMode::Locked => ("LOCKED"@, "LCK"@, "L"@),
        InputMode::Resize => ("RESIZE"@, "RSZ"@, "R"@),
        InputMode::Pane => ("PANE"@, "PNE"@, "P"@),
        InputMode::Tab => ("TAB"@, "TAB"@, "T"@),
        InputMode::Scroll => ("SCROLL"@, "SCR"@, "S"@),
        InputMode::EnterSearch => ("SEARCH"@, "SRC"@, "?"@),
        InputMode::Search => ("SEARCH"@, "SRC"@, "?"@),
        InputMode::RenameTab => ("RENAME"@, "RNM"@, "R"@),
        InputMode::RenamePane => ("RENAME"@, "RNM"@, "R"@),
        InputMode::Session => ("SESSION"@, "SES"@, "S"@),
        InputMode::Move => ("MOVE"@, "MOV"@, "M"@),
        InputMode::Prompt => ("PROMPT"@, "PRM"@, "P"@),
        InputMode::Tmux => ("TMUX"@, "TMX"@, "T"@),
    }
}

fn labels(full: &str, compact: &str, minimal: &str) -> (l: ModeLabels)
    ensures
        l@ == (full@, compact@, minimal@),
{
    ModeLabels { full: full.to_owned(), compact: compact.to_owned(), minimal: minimal.to_owned() }
}

/// The labels that a mode has before any configuration.
pub fn default_mode_labels(m: InputMode) -> (l: ModeLabels)
    ensures
        l@ == default_labels(m),
{
    match m {
        InputMode::Normal => labels("NORMAL", "NRM", "N"),
        InputMode::Locked => labels("LOCKED", "LCK", "L"),
        InputMode::Resize => labels("RESIZE", "RSZ", "R"),
        InputMode::Pane => labels("PANE", "PNE", "P"),
        InputMode::Tab => labels("TAB", "TAB", "T"),
        InputMode::Scroll => labels("SCROLL", "SCR", "S"),
        InputMode::EnterSearch => labels("SEARCH", "SRC", "?"),
        InputMode::Search => labels("SEARCH", "SRC", "?"),
        InputMode::RenameTab => labels("RENAME", "RNM", "R"),
        InputMode::RenamePane => labels("RENAME", "RNM", "R"),
        InputMode::Session => labels("SESSION", "SES", "S"),
        InputMode::Move => labels("MOVE", "MOV", "M"),
        InputMode::Prompt => labels("PROMPT", "PRM", "P"),
        InputMode::Tmux => labels("TMUX", "TMX", "T"),
    }
}

} // verus!

verus! {

/// The text of an optional string.
pub open spec fn opt_view(o: Option<String>) -> Option<Seq<char>> {
    match o {
        Some(s) => Some(s@),
        None => None,
    }
}

/// Styling configuration of the sidebar.
#[derive(Debug)]
pub struct StyleConfig {
    pub format: String,
    pub format_active: String,
    pub overflow_above: String,
    pub overflow_below: String,
    pub indicator_active: String,
    pub indicator_fullscreen: String,
    pub indicator_sync: String,
    pub padding_top: usize,
    pub border: String,
    pub max_name_length: usize,
    pub start_index: usize,
    /// Newline-separated format of the header; supports `{session}`, `{mode}`.
    pub format_header: String,
    /// Separator below the header; empty for none.
    pub header_border: String,
    /// Labels per mode, indexed by `mode_index`.
    pub mode_labels: Vec<ModeLabels>,
    /// Foreground colour text per mode, indexed by `mode_index`.
    pub mode_colors: Vec<Option<String>>,
    /// Newline-separated format of the footer; supports `{command_NAME}`.
    pub format_footer: String,
    pub format_footer_compact: String,
    pub format_footer_minimal: String,
    /// Separator above the footer; empty for none.
    pub footer_border: String,
    pub compact_threshold: usize,
    pub minimal_threshold: usize,
}

impl StyleConfig {
    /// The per-mode tables hold one entry per mode.
    pub open spec fn wf(&self) -> bool {
        &&& self.mode_labels@.len() == MODE_COUNT
        &&& self.mode_colors@.len() == MODE_COUNT
        &&& self.format_header@.len() < usize::MAX
        &&& self.format_footer@.len() < usize::MAX
        &&& self.format_footer_compact@.len() < usize::MAX
        &&& self.format_footer_minimal@.len() < usize::MAX
    }

    /// The labels of a mode.
    pub open spec fn labels_of(&self, m: InputMode) -> (Seq<char>, Seq<char>, Seq<char>) {
        self.mode_labels@[mode_index(m)]@
    }

    /// The colour text of a mode.
    pub open spec fn color_of(&self, m: InputMode) -> Option<Seq<char>> {
        opt_view(self.mode_colors@[mode_index(m)])
    }

    /// The configuration before any entry is read.
    pub open spec fn is_initial(&self) -> bool {
        &&& self.wf()
        &&& self.format@ == "{index}:{name}"@
        &&& self.format_active@ == "{index}:{name} {indicators}"@
        &&& self.overflow_above@ == "  ^ +{count}"@
        &&& self.overflow_below@ == "  v +{count}"@
        &&& self.indicator_active@ == "*"@
        &&& self.indicator_fullscreen@ == "Z"@
        &&& self.indicator_sync@ == "S"@
        &&& self.max_name_length == 20
        &&& self.padding_top == 0
        &&& self.border@ == Seq::<char>::empty()
        &&& self.start_index == 1
        &&& self.format_header@ == "{session}  {mode}"@
        &&& self.header_border@ == Seq::<char>::empty()
        &&& (forall|i: int| 0 <= i < MODE_COUNT ==> #[trigger] self.mode_labels@[i]@ == default_labels(mode_at(i)))
        &&& (forall|i: int| 0 <= i < MODE_COUNT ==> #[trigger] self.mode_colors@[i] is None)
        &&& self.format_footer@ == Seq::<char>::empty()
        &&& self.format_footer_compact@ == Seq::<char>::empty()
        &&& self.format_footer_minimal@ == Seq::<char>::empty()
        &&& self.footer_border@ == Seq::<char>::empty()
        &&& self.compact_threshold == 18
        &&& self.minimal_threshold == 12
    }
}

impl Default for StyleConfig {
    fn default() -> (c: Self)
        ensures
            c.is_initial(),
    {
        let mut mode_labels: Vec<ModeLabels> = Vec::new();
        let mut mode_colors: Vec<Option<String>> = Vec::new();
        let mut i: usize = 0;
        while i < MODE_COUNT
            invariant
                i <= MODE_COUNT,
                mode_labels@.len() == i,
                mode_colors@.len() == i,
                forall|k: int| 0 <= k < i ==> #[trigger] mode_labels@[k]@ == default_labels(mode_at(k)),
                forall|k: int| 0 <= k < i ==> #[trigger] mode_colors@[k] is None,
            decreases MODE_COUNT - i,
        {
            mode_labels.push(default_mode_labels(mode_at_index(i)));
            mode_colors.push(None);
            i = i + 1;
        }
        proof {
            reveal_strlit("{session}  {mode}");
        }
        StyleConfig {
            format: "{index}:{name}".to_owned(),
            format_active: "{index}:{name} {indicators}".to_owned(),
            overflow_above: "  ^ +{count}".to_owned(),
            overflow_below: "  v +{count}".to_owned(),
            indicator_active: "*".to_owned(),
            indicator_fullscreen: "Z".to_owned(),
            indicator_sync: "S".to_owned(),
            max_name_length: 20,
            padding_top: 0,
            border: String::new(),
            start_index: 1,
            format_header: "{session}  {mode}".to_owned(),
            header_border: String::new(),
            mode_labels,
            mode_colors,
            format_footer: String::new(),
            format_footer_compact: String::new(),
            format_footer_minimal: String::new(),
            footer_border: String::new(),
            compact_threshold: 18,
            minimal_threshold: 12,
        }
    }
}

/// The tier for a width of `cols` columns.
pub open spec fn tier_for(minimal: usize, compact: usize, cols: usize) -> RenderTier {
    if cols < minimal {
        RenderTier::Minimal
    } else if cols < compact {
        RenderTier::Compact
    } else {
        RenderTier::Full
    }
}

/// The footer format in use at a tier: the tier's own format when it is not
/// empty, the full one otherwise.
pub open spec fn footer_format_for(c: &StyleConfig, tier: RenderTier) -> Seq<char> {
    if tier == RenderTier::Minimal && c.format_footer_minimal@.len() > 0 {
        c.format_footer_minimal@
    } else if tier == RenderTier::Compact && c.format_footer_compact@.len() > 0 {
        c.format_footer_compact@
    } else {
        c.format_footer@
    }
}

/// The label of a mode at a tier.
pub open spec fn label_at(l: (Seq<char>, Seq<char>, Seq<char>), tier: RenderTier) -> Seq<char> {
    match tier {
        RenderTier::Full => l.0,
        RenderTier::Compact => l.1,
        RenderTier::Minimal => l.2,
    }
}

impl StyleConfig {
    /// The tier for a width of `cols` columns.
    pub fn render_tier(&self, cols: usize) -> (t: RenderTier)
        ensures
            t == tier_for(self.minimal_threshold, self.compact_threshold, cols),
    {
        if cols < self.minimal_threshold {
            RenderTier::Minimal
        } else if cols < self.compact_threshold {
            RenderTier::Compact
        } else {
            RenderTier::Full
        }
    }

    /// The footer format in use at a tier.
    pub fn active_footer_format(&self, tier: RenderTier) -> (f: &String)
        ensures
            f@ == footer_format_for(self, tier),
    {
        match tier {
            RenderTier::Minimal if !self.format_footer_minimal.as_str().is_empty() => {
                &self.format_footer_minimal
            },
            RenderTier::Compact if !self.format_footer_compact.as_str().is_empty() => {
                &self.format_footer_compact
            },
            _ => &self.format_footer,
        }
    }

    /// The label of the mode at the tier, and the mode's colour text.
    pub fn mode_display(&self, mode: InputMode, tier: RenderTier) -> (r: (String, Option<String>))
        requires
            self.wf(),
        ensures
            r.0@ == label_at(self.labels_of(mode), tier),
            opt_view(r.1) == self.color_of(mode),
    {
        let i = mode_index_of(mode);
        let l = &self.mode_labels[i];
        let label = match tier {
            RenderTier::Full => l.full.clone(),
            RenderTier::Compact => l.compact.clone(),
            RenderTier::Minimal => l.minimal.clone(),
        };
        let color = match &self.mode_colors[i] {
            Some(c) => Some(c.clone()),
            None => None,
        };
        (label, color)
    }
}

} // verus!

verus! {

/// Configuration entries as texts.
pub open spec fn entry_views(e: Seq<(String, String)>) -> Seq<(Seq<char>, Seq<char>)> {
    e.map_values(|x: (String, String)| (x.0@, x.1@))
}

/// The value of the first entry with the given key.
pub open spec fn lookup(e: Seq<(Seq<char>, Seq<char>)>, key: Seq<char>) -> Option<Seq<char>>
    decreases e.len(),
{
    if e.len() == 0 {
        None
    } else if e[0].0 == key {
        Some(e[0].1)
    } else {
        lookup(e.drop_first(), key)
    }
}

/// A text setting: the entry's value, or `old` when there is no entry.
pub open spec fn text_setting(e: Seq<(Seq<char>, Seq<char>)>, key: Seq<char>, old: Seq<char>) -> Seq<char> {
    match lookup(e, key) {
        Some(v) => v,
        None => old,
    }
}

/// A number setting: the entry's value when it reads as a `usize`, or `old`.
pub open spec fn number_setting(e: Seq<(Seq<char>, Seq<char>)>, key: Seq<char>, old: usize) -> usize {
    match lookup(e, key) {
        Some(v) => match parse_unsigned(v, usize::MAX as nat) {
            Some(n) => n as usize,
            None => old,
        },
        None => old,
    }
}

/// Entries whose values are shorter than `usize::MAX` characters (any text
/// in memory is).
pub open spec fn entries_fit(e: Seq<(Seq<char>, Seq<char>)>) -> bool {
    forall|i: int| 0 <= i < e.len() ==> (#[trigger] e[i]).1.len() < usize::MAX
}

proof fn lemma_lookup_fits(e: Seq<(Seq<char>, Seq<char>)>, key: Seq<char>)
    requires
        entries_fit(e),
    ensures
        lookup(e, key) matches Some(v) ==> v.len() < usize::MAX,
    decreases e.len(),
{
    if e.len() > 0 && e[0].0 != key {
        assert(entries_fit(e.drop_first())) by {
            assert forall|i: int| 0 <= i < e.drop_first().len() implies (#[trigger] e.drop_first()[i]).1.len() < usize::MAX by {
                assert(e.drop_first()[i] == e[i + 1]);
            }
        }
        lemma_lookup_fits(e.drop_first(), key);
    }
}

/// The value of the first entry with key `key`.
pub fn lookup_entry(entries: &Vec<(String, String)>, key: &str) -> (r: Option<String>)
    ensures
        opt_view(r) == lookup(entry_views(entries@), key@),
{
    let ghost e = entry_views(entries@);
    let mut i: usize = 0;
    assert(e.skip(0) =~= e);
    while i < entries.len()
        invariant
            i <= entries@.len(),
            e == entry_views(entries@),
            lookup(e, key@) == lookup(e.skip(i as int), key@),
        decreases entries@.len() - i,
    {
        assert(e.skip(i as int)[0] == (entries@[i as int].0@, entries@[i as int].1@));
        assert(e.skip(i as int).drop_first() =~= e.skip(i + 1));
        if same_text(entries[i].0.as_str(), key) {
            return Some(entries[i].1.clone());
        }
        i = i + 1;
    }
    None
}

fn set_text(target: &mut String, entries: &Vec<(String, String)>, key: &str)
    ensures
        final(target)@ == text_setting(entry_views(entries@), key@, old(target)@),
{
    match lookup_entry(entries, key) {
        Some(v) => {
            *target = v;
        },
        None => {},
    }
}

fn set_number(target: &mut usize, entries: &Vec<(String, String)>, key: &str)
    ensures
        *final(target) == number_setting(entry_views(entries@), key@, *old(target)),
{
    match lookup_entry(entries, key) {
        Some(v) => match parse_unsigned_text(v.as_str(), usize::MAX) {
            Some(n) => {
                *target = n;
            },
            None => {},
        },
        None => {},
    }
}

/// `a` followed by `b` and `c`.
pub fn concat3(a: &str, b: &str, c: &str) -> (s: String)
    ensures
        s@ == a@ + b@ + c@,
{
    let mut s = String::new();
    s.append(a);
    s.append(b);
    s.append(c);
    assert(s@ =~= a@ + b@ + c@);
    s
}

/// The configuration after reading the entries (text settings replace,
/// number settings replace when they read as numbers, per-mode labels and
/// colours from `mode_NAME[_compact|_minimal]` and `mode_color_NAME`).
pub open spec fn configured(old: &StyleConfig, new: &StyleConfig, e: Seq<(Seq<char>, Seq<char>)>) -> bool {
    &&& new.wf()
    &&& new.format@ == text_setting(e, "format"@, old.format@)
    &&& new.format_active@ == text_setting(e, "format_active"@, old.format_active@)
    &&& new.overflow_above@ == text_setting(e, "overflow_above"@, old.overflow_above@)
    &&& new.overflow_below@ == text_setting(e, "overflow_below"@, old.overflow_below@)
    &&& new.indicator_active@ == text_setting(e, "indicator_active"@, old.indicator_active@)
    &&& new.indicator_fullscreen@ == text_setting(e, "indicator_fullscreen"@, old.indicator_fullscreen@)
    &&& new.indicator_sync@ == text_setting(e, "indicator_sync"@, old.indicator_sync@)
    &&& new.max_name_length == number_setting(e, "max_name_length"@, old.max_name_length)
    &&& new.padding_top == number_setting(e, "padding_top"@, old.padding_top)
    &&& new.border@ == text_setting(e, "border"@, text_setting(e, "border_char"@, old.border@))
    &&& new.start_index == number_setting(e, "start_index"@, old.start_index)
    &&& new.format_header@ == text_setting(e, "format_header"@, old.format_header@)
    &&& new.header_border@ == text_setting(e, "header_border"@, old.header_border@)
    &&& (forall|i: int|
        0 <= i < MODE_COUNT ==> #[trigger] new.mode_labels@[i]@ == (
            text_setting(e, "mode_"@ + mode_key(mode_at(i)), old.mode_labels@[i]@.0),
            text_setting(e, "mode_"@ + mode_key(mode_at(i)) + "_compact"@, old.mode_labels@[i]@.1),
            text_setting(e, "mode_"@ + mode_key(mode_at(i)) + "_minimal"@, old.mode_labels@[i]@.2),
        ))
    &&& (forall|i: int|
        0 <= i < MODE_COUNT ==> #[trigger] opt_view(new.mode_colors@[i]) == match lookup(
            e,
            "mode_color_"@ + mode_key(mode_at(i)),
        ) {
            Some(c) => Some(c),
            None => opt_view(old.mode_colors@[i]),
        })
    &&& new.format_footer@ == text_setting(e, "format_footer"@, old.format_footer@)
    &&& new.format_footer_compact@ == text_setting(e, "format_footer_compact"@, old.format_footer_compact@)
    &&& new.format_footer_minimal@ == text_setting(e, "format_footer_minimal"@, old.format_footer_minimal@)
    &&& new.footer_border@ == text_setting(e, "footer_border"@, old.footer_border@)
    &&& new.compact_threshold == number_setting(e, "compact_threshold"@, old.compact_threshold)
    &&& new.minimal_threshold == number_setting(e, "minimal_threshold"@, old.minimal_threshold)
}


/// Reads the per-mode labels and colours from configuration entries.
fn apply_mode_entries(
    mode_labels: &mut Vec<ModeLabels>,
    mode_colors: &mut Vec<Option<String>>,
    entries: &Vec<(String, String)>,
)
    requires
        old(mode_labels)@.len() == MODE_COUNT,
        old(mode_colors)@.len() == MODE_COUNT,
    ensures
        final(mode_labels)@.len() == MODE_COUNT,
        final(mode_colors)@.len() == MODE_COUNT,
        forall|i: int|
            0 <= i < MODE_COUNT ==> #[trigger] final(mode_labels)@[i]@ == (
                text_setting(entry_views(entries@), "mode_"@ + mode_key(mode_at(i)), old(mode_labels)@[i]@.0),
                text_setting(entry_views(entries@), "mode_"@ + mode_key(mode_at(i)) + "_compact"@, old(mode_labels)@[i]@.1),
                text_setting(entry_views(entries@), "mode_"@ + mode_key(mode_at(i)) + "_minimal"@, old(mode_labels)@[i]@.2),
            ),
        forall|i: int|
            0 <= i < MODE_COUNT ==> #[trigger] opt_view(final(mode_colors)@[i]) == match lookup(
                entry_views(entries@),
                "mode_color_"@ + mode_key(mode_at(i)),
            ) {
                Some(c) => Some(c),
                None => opt_view(old(mode_colors)@[i]),
            },
{
    let ghost old_labels = mode_labels@;
    let ghost old_colors = mode_colors@;
    let ghost e = entry_views(entries@);
    let mut i: usize = 0;
    while i < MODE_COUNT
        invariant
            i <= MODE_COUNT,
            e == entry_views(entries@),
            mode_labels@.len() == MODE_COUNT,
            mode_colors@.len() == MODE_COUNT,
            old_labels.len() == MODE_COUNT,
            old_colors.len() == MODE_COUNT,
            forall|k: int| i <= k < MODE_COUNT ==> #[trigger] mode_labels@[k] == old_labels[k],
            forall|k: int| i <= k < MODE_COUNT ==> #[trigger] mode_colors@[k] == old_colors[k],
            forall|k: int|
                0 <= k < i ==> #[trigger] mode_labels@[k]@ == (
                    text_setting(e, "mode_"@ + mode_key(mode_at(k)), old_labels[k]@.0),
                    text_setting(e, "mode_"@ + mode_key(mode_at(k)) + "_compact"@, old_labels[k]@.1),
                    text_setting(e, "mode_"@ + mode_key(mode_at(k)) + "_minimal"@, old_labels[k]@.2),
                ),
            forall|k: int|
                0 <= k < i ==> #[trigger] opt_view(mode_colors@[k]) == match lookup(
                    e,
                    "mode_color_"@ + mode_key(mode_at(k)),
                ) {
                    Some(c) => Some(c),
                    None => opt_view(old_colors[k]),
                },
        decreases MODE_COUNT - i,
    {
        let key = input_mode_key(mode_at_index(i));
        let mut l = mode_labels[i].clone();
        let k_full = concat3("mode_", key, "");
        let k_compact = concat3("mode_", key, "_compact");
        let k_minimal = concat3("mode_", key, "_minimal");
        let k_color = concat3("mode_color_", key, "");
        proof {
            reveal_strlit("");
            assert(k_full@ =~= "mode_"@ + mode_key(mode_at(i as int)));
            assert(k_color@ =~= "mode_color_"@ + mode_key(mode_at(i as int)));
        }
        set_text(&mut l.full, entries, k_full.as_str());
        set_text(&mut l.compact, entries, k_compact.as_str());
        set_text(&mut l.minimal, entries, k_minimal.as_str());
        mode_labels.set(i, l);
        match lookup_entry(entries, k_color.as_str()) {
            Some(c) => {
                mode_colors.set(i, Some(c));
            },
            None => {},
        }
        i = i + 1;
    }
}

impl StyleConfig {
    /// Reads the styling settings from configuration entries.
    pub fn apply_entries(&mut self, entries: &Vec<(String, String)>)
        requires
            old(self).wf(),
            entries_fit(entry_views(entries@)),
        ensures
            configured(old(self), final(self), entry_views(entries@)),
    {
        set_text(&mut self.format, entries, "format");
        set_text(&mut self.format_active, entries, "format_active");
        set_text(&mut self.overflow_above, entries, "overflow_above");
        set_text(&mut self.overflow_below, entries, "overflow_below");
        set_text(&mut self.indicator_active, entries, "indicator_active");
        set_text(&mut self.indicator_fullscreen, entries, "indicator_fullscreen");
        set_text(&mut self.indicator_sync, entries, "indicator_sync");
        set_number(&mut self.max_name_length, entries, "max_name_length");
        set_number(&mut self.padding_top, entries, "padding_top");
        match lookup_entry(entries, "border") {
            Some(v) => {
                self.border = v;
            },
            None => {
                set_text(&mut self.border, entries, "border_char");
            },
        }
        set_number(&mut self.start_index, entries, "start_index");
        set_text(&mut self.format_header, entries, "format_header");
        proof {
            lemma_lookup_fits(entry_views(entries@), "format_header"@);
            lemma_lookup_fits(entry_views(entries@), "format_footer"@);
            lemma_lookup_fits(entry_views(entries@), "format_footer_compact"@);
            lemma_lookup_fits(entry_views(entries@), "format_footer_minimal"@);
        }
        set_text(&mut self.header_border, entries, "header_border");
        apply_mode_entries(&mut self.mode_labels, &mut self.mode_colors, entries);
        set_text(&mut self.format_footer, entries, "format_footer");
        set_text(&mut self.format_footer_compact, entries, "format_footer_compact");
        set_text(&mut self.format_footer_minimal, entries, "format_footer_minimal");
        set_text(&mut self.footer_border, entries, "footer_border");
        set_number(&mut self.compact_threshold, entries, "compact_threshold");
        set_number(&mut self.minimal_threshold, entries, "minimal_threshold");
    }
}

} // verus!

verus! {

/// The rank of a tier, from the narrowest to the widest.
pub open spec fn tier_rank(t: RenderTier) -> int {
    match t {
        RenderTier::Minimal => 0,
        RenderTier::Compact => 1,
        RenderTier::Full => 2,
    }
}

/// With the minimal threshold at most the compact one, a wider pane never
/// gets a narrower tier; below the minimal threshold the tier is minimal,
/// from the compact threshold on it is full.
pub proof fn law_tier_grows_with_width(minimal: usize, compact: usize, a: usize, b: usize)
    requires
        minimal <= compact,
        a <= b,
    ensures
        tier_rank(tier_for(minimal, compact, a)) <= tier_rank(tier_for(minimal, compact, b)),
        a < minimal ==> tier_for(minimal, compact, a) == RenderTier::Minimal,
        b >= compact ==> tier_for(minimal, compact, b) == RenderTier::Full,
{
}

} // verus!

verus! {

proof fn lemma_number_entry(e: Seq<(Seq<char>, Seq<char>)>, key: Seq<char>, old: usize)
    ensures
        lookup(e, key) matches Some(v) ==> parse_unsigned(v, usize::MAX as nat) matches Some(n) ==> number_setting(
            e,
            key,
            old,
        ) == n,
{
    match lookup(e, key) {
        Some(v) => match parse_unsigned(v, usize::MAX as nat) {
            Some(n) => {
                assert(n <= usize::MAX);
                assert(number_setting(e, key, old) == n as usize);
                assert((n as usize) as nat == n);
            },
            None => {},
        },
        None => {},
    }
}

/// Reading configuration entries sets each text setting to the value of the
/// first entry with its key, and leaves it as it was when there is none
/// (`border` wins over `border_char`); a number setting takes its entry's
/// value when that reads as a number; a mode's labels and colour take the
/// values of `mode_KEY`, `mode_KEY_compact`, `mode_KEY_minimal` and
/// `mode_color_KEY`.
pub proof fn law_settings_follow_entries(old: &StyleConfig, new: &StyleConfig, e: Seq<(Seq<char>, Seq<char>)>)
    requires
        configured(old, new, e),
    ensures
        new.format@ == text_setting(e, "format"@, old.format@),
        new.format_active@ == text_setting(e, "format_active"@, old.format_active@),
        new.overflow_above@ == text_setting(e, "overflow_above"@, old.overflow_above@),
        new.overflow_below@ == text_setting(e, "overflow_below"@, old.overflow_below@),
        new.indicator_active@ == text_setting(e, "indicator_active"@, old.indicator_active@),
        new.indicator_fullscreen@ == text_setting(e, "indicator_fullscreen"@, old.indicator_fullscreen@),
        new.indicator_sync@ == text_setting(e, "indicator_sync"@, old.indicator_sync@),
        new.border@ == text_setting(e, "border"@, text_setting(e, "border_char"@, old.border@)),
        new.format_header@ == text_setting(e, "format_header"@, old.format_header@),
        new.header_border@ == text_setting(e, "header_border"@, old.header_border@),
        new.format_footer@ == text_setting(e, "format_footer"@, old.format_footer@),
        new.format_footer_compact@ == text_setting(e, "format_footer_compact"@, old.format_footer_compact@),
        new.format_footer_minimal@ == text_setting(e, "format_footer_minimal"@, old.format_footer_minimal@),
        new.footer_border@ == text_setting(e, "footer_border"@, old.footer_border@),
        lookup(e, "max_name_length"@) matches Some(v) ==> parse_unsigned(v, usize::MAX as nat) matches Some(n)
            ==> new.max_name_length == n,
        lookup(e, "padding_top"@) matches Some(v) ==> parse_unsigned(v, usize::MAX as nat) matches Some(n)
            ==> new.padding_top == n,
        lookup(e, "start_index"@) matches Some(v) ==> parse_unsigned(v, usize::MAX as nat) matches Some(n)
            ==> new.start_index == n,
        lookup(e, "compact_threshold"@) matches Some(v) ==> parse_unsigned(v, usize::MAX as nat) matches Some(n)
            ==> new.compact_threshold == n,
        lookup(e, "minimal_threshold"@) matches Some(v) ==> parse_unsigned(v, usize::MAX as nat) matches Some(n)
            ==> new.minimal_threshold == n,
        !(lookup(e, "max_name_length"@) matches Some(v) && parse_unsigned(v, usize::MAX as nat) is Some)
            ==> new.max_name_length == old.max_name_length,
        !(lookup(e, "padding_top"@) matches Some(v) && parse_unsigned(v, usize::MAX as nat) is Some)
            ==> new.padding_top == old.padding_top,
        !(lookup(e, "start_index"@) matches Some(v) && parse_unsigned(v, usize::MAX as nat) is Some)
            ==> new.start_index == old.start_index,
        !(lookup(e, "compact_threshold"@) matches Some(v) && parse_unsigned(v, usize::MAX as nat) is Some)
            ==> new.compact_threshold == old.compact_threshold,
        !(lookup(e, "minimal_threshold"@) matches Some(v) && parse_unsigned(v, usize::MAX as nat) is Some)
            ==> new.minimal_threshold == old.minimal_threshold,
        forall|m: InputMode| #[trigger] new.labels_of(m) == (
            text_setting(e, "mode_"@ + mode_key(m), old.labels_of(m).0),
            text_setting(e, "mode_"@ + mode_key(m) + "_compact"@, old.labels_of(m).1),
            text_setting(e, "mode_"@ + mode_key(m) + "_minimal"@, old.labels_of(m).2),
        ),
        forall|m: InputMode| #[trigger] new.color_of(m) == match lookup(e, "mode_color_"@ + mode_key(m)) {
            Some(c) => Some(c),
            None => old.color_of(m),
        },
{
    lemma_number_entry(e, "max_name_length"@, old.max_name_length);
    lemma_number_entry(e, "padding_top"@, old.padding_top);
    lemma_number_entry(e, "start_index"@, old.start_index);
    lemma_number_entry(e, "compact_threshold"@, old.compact_threshold);
    lemma_number_entry(e, "minimal_threshold"@, old.minimal_threshold);
    assert forall|m: InputMode| #[trigger] new.labels_of(m) == (
        text_setting(e, "mode_"@ + mode_key(m), old.labels_of(m).0),
        text_setting(e, "mode_"@ + mode_key(m) + "_compact"@, old.labels_of(m).1),
        text_setting(e, "mode_"@ + mode_key(m) + "_minimal"@, old.labels_of(m).2),
    ) by {
        let i = mode_index(m);
        assert(mode_at(i) == m);
        assert(new.mode_labels@[i]@ == new.labels_of(m));
    }
    assert forall|m: InputMode| #[trigger] new.color_of(m) == match lookup(e, "mode_color_"@ + mode_key(m)) {
        Some(c) => Some(c),
        None => old.color_of(m),
    } by {
        let i = mode_index(m);
        assert(mode_at(i) == m);
    }
}

} // verus!
