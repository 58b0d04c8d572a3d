//! What the sidebar knows of the multiplexer: tabs, panes and the mode.

use vstd::prelude::*;
use crate::config::{InputMode, opt_view};

verus! {

/// A tab, as the sidebar sees it.
#[derive(Debug)]
pub struct TabInfo {
    /// The tab's 0-indexed position.
    pub position: usize,
    pub name: String,
    pub active: bool,
    pub is_fullscreen_active: bool,
    pub is_sync_panes_active: bool,
}

/// A tab as a value.
pub struct TabView {
    pub position: usize,
    pub name: Seq<char>,
    pub active: bool,
    pub fullscreen: bool,
    pub sync: bool,
}

impl View for TabInfo {
    type V = TabView;

    open spec fn view(&self) -> TabView {
        TabView {
            position: self.position,
            name: self.name@,
            active: self.active,
            fullscreen: self.is_fullscreen_active,
            sync: self.is_sync_panes_active,
        }
    }
}

impl Clone for TabInfo {
    fn clone(&self) -> (r: Self)
        ensures
            r@ == self@,
    {
        TabInfo {
            position: self.position,
            name: self.name.clone(),
            active: self.active,
            is_fullscreen_active: self.is_fullscreen_active,
            is_sync_panes_active: self.is_sync_panes_active,
        }
    }
}

/// A pane, as the sidebar sees it.
#[derive(Debug)]
pub struct PaneInfo {
    pub is_plugin: bool,
    pub is_focused: bool,
    pub title: String,
}

/// A pane as a value: plugin, focused, title.
pub type PaneView = (bool, bool, Seq<char>);

impl View for PaneInfo {
    type V = PaneView;

    open spec fn view(&self) -> PaneView {
        (self.is_plugin, self.is_focused, self.title@)
    }
}

/// The panes of each tab, by tab position.
pub type PaneManifest = Vec<(usize, Vec<PaneInfo>)>;

/// The panes of each tab as values.
pub open spec fn manifest_view(m: Seq<(usize, Vec<PaneInfo>)>) -> Seq<(usize, Seq<PaneView>)> {
    m.map_values(|e: (usize, Vec<PaneInfo>)| (e.0, e.1@.map_values(|p: PaneInfo| p@)))
}

/// The input mode and the session's name.
#[derive(Debug)]
pub struct ModeInfo {
    pub mode: InputMode,
    pub session_name: Option<String>,
}

/// The mode as a value.
pub type ModeView = (InputMode, Option<Seq<char>>);

impl View for ModeInfo {
    type V = ModeView;

    open spec fn view(&self) -> ModeView {
        (self.mode, opt_view(self.session_name))
    }
}

/// The views of a list of tabs.
pub open spec fn tab_views(t: Seq<TabInfo>) -> Seq<TabView> {
    t.map_values(|x: TabInfo| x@)
}

} // verus!
