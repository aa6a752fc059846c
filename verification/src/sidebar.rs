//! What the views of the sidebar share: the view that is shown, and the settings.

use vstd::prelude::*;

use crate::scm_app::layout::ScmFileView;

verus! {

/// The views that share the sidebar.
#[derive(Clone, Copy, PartialEq, Eq, Debug, Structural)]
pub enum SideView {
    Explorer,
    SourceControl,
    Search,
}

/// How icons are drawn.
#[derive(Clone, Copy, PartialEq, Eq, Debug, Structural)]
pub enum IconTheme {
    Material,
    Emoji,
}

impl IconTheme {
    pub open spec fn other(self) -> IconTheme {
        match self {
            IconTheme::Material => IconTheme::Emoji,
            IconTheme::Emoji => IconTheme::Material,
        }
    }

    pub fn toggled(self) -> (r: IconTheme)
        ensures
            r == self.other(),
    {
        match self {
            IconTheme::Material => IconTheme::Emoji,
            IconTheme::Emoji => IconTheme::Material,
        }
    }
}

/// Why a view ends.
#[derive(Clone, Copy, PartialEq, Eq, Debug, Structural)]
pub enum Exit {
    Quit,
    /// Another view takes the pane.
    Switch,
}

/// The buttons of a title row.
#[derive(Clone, Copy, PartialEq, Eq, Debug, Structural)]
pub enum TitleAction {
    Refresh,
    CollapseAll,
    ExpandAll,
    Sync,
    Commit,
    Search,
    Clear,
}

/// The settings that are kept.
#[derive(Clone, Copy, PartialEq, Eq, Debug, Structural)]
pub struct Settings {
    /// Whether the views share one pane.
    pub merged: bool,
    pub active: SideView,
    pub icons: Option<IconTheme>,
    pub diff_theme: usize,
    pub hide_unmodified: bool,
    pub scm_file_view: ScmFileView,
    pub show_hotkeys: bool,
    pub auto_open: bool,
}

/// The word for a setting that is on or off.
pub open spec fn on_off(on: bool) -> Seq<char> {
    if on {
        "on"@
    } else {
        "off"@
    }
}

pub fn on_off_word(on: bool) -> (r: &'static str)
    ensures
        r@ == on_off(on),
{
    if on {
        "on"
    } else {
        "off"
    }
}

} // verus!
