//! How a view runs: what the command line asks for, who gets an event, and when the
//! sidebars of a workspace hear of each other.

use vstd::prelude::*;

use crate::input::least;
use crate::sidebar::{Exit, SideView};
use crate::text::{eq_text, texts};

verus! {

/// How often the source control view reads the status anew, in milliseconds.
pub const REFRESH_EVERY: u64 = 1500;

/// For how long after the sidebar resized its pane itself a resize is no news, in
/// milliseconds.
pub const OWN_RESIZE: u64 = 1000;

// ---- The command line ----

/// What the command line asks for.
pub enum Command {
    /// Run the sidebar, with a view of its own or none in particular.
    Run(Option<SideView>),
    /// Show a preview; the control file is named.
    Preview(String),
    /// Show a preview, but no control file is named.
    PreviewOfNothing,
    LaunchDecision { git: bool },
    FocusedPane,
    OpenPlan,
    FocusedTab,
    AutoOpen,
    Unknown(String),
}

#[verifier::ext_equal]
pub enum CommandView {
    Run(Option<SideView>),
    Preview(Seq<char>),
    PreviewOfNothing,
    LaunchDecision { git: bool },
    FocusedPane,
    OpenPlan,
    FocusedTab,
    AutoOpen,
    Unknown(Seq<char>),
}

impl View for Command {
    type V = CommandView;

    open spec fn view(&self) -> CommandView {
        match *self {
            Command::Run(v) => CommandView::Run(v),
            Command::Preview(p) => CommandView::Preview(p@),
            Command::PreviewOfNothing => CommandView::PreviewOfNothing,
            Command::LaunchDecision { git } => CommandView::LaunchDecision { git },
            Command::FocusedPane => CommandView::FocusedPane,
            Command::OpenPlan => CommandView::OpenPlan,
            Command::FocusedTab => CommandView::FocusedTab,
            Command::AutoOpen => CommandView::AutoOpen,
            Command::Unknown(a) => CommandView::Unknown(a@),
        }
    }
}

/// The view that a flag names.
pub open spec fn flagged_view(flag: Seq<char>) -> Option<SideView> {
    if flag == "explorer"@ {
        Some(SideView::Explorer)
    } else if flag == "git"@ {
        Some(SideView::SourceControl)
    } else if flag == "search"@ {
        Some(SideView::Search)
    } else {
        None
    }
}

/// What the arguments after the program's name ask for.
pub open spec fn command_of(args: Seq<Seq<char>>) -> CommandView {
    if args.len() == 0 {
        CommandView::Run(None)
    } else {
        let mode = args[0];
        let second = if args.len() > 1 {
            Some(args[1])
        } else {
            None
        };
        if mode == "--launch-decision"@ {
            CommandView::LaunchDecision { git: second == Some("git"@) }
        } else if mode == "--focused-pane"@ {
            CommandView::FocusedPane
        } else if mode == "--open-plan"@ {
            CommandView::OpenPlan
        } else if mode == "--focused-tab"@ {
            CommandView::FocusedTab
        } else if mode == "--auto-open"@ {
            CommandView::AutoOpen
        } else if mode == "--preview"@ {
            match second {
                Some(path) => CommandView::Preview(path),
                None => CommandView::PreviewOfNothing,
            }
        } else if mode == "--view"@ {
            CommandView::Run(
                match second {
                    Some(flag) => flagged_view(flag),
                    None => None,
                },
            )
        } else {
            CommandView::Unknown(mode)
        }
    }
}

/// The view that a flag names.
pub fn view_from_flag(flag: &str) -> (r: Option<SideView>)
    ensures
        r == flagged_view(flag@),
{
    if eq_text(flag, "explorer") {
        Some(SideView::Explorer)
    } else if eq_text(flag, "git") {
        Some(SideView::SourceControl)
    } else if eq_text(flag, "search") {
        Some(SideView::Search)
    } else {
        None
    }
}

/// What the arguments after the program's name ask for.
pub fn parse_args(args: &Vec<String>) -> (r: Command)
    ensures
        r@ == command_of(texts(args@)),
{
    let ghost all = texts(args@);
    assert(all.len() == args@.len());
    if args.len() == 0 {
        return Command::Run(None);
    }
    assert(all[0] == args@[0]@);
    let mode = args[0].as_str();
    if args.len() > 1 {
        assert(all[1] == args@[1]@);
    }
    if eq_text(mode, "--launch-decision") {
        return Command::LaunchDecision { git: args.len() > 1 && eq_text(args[1].as_str(), "git") };
    }
    if eq_text(mode, "--focused-pane") {
        return Command::FocusedPane;
    }
    if eq_text(mode, "--open-plan") {
        return Command::OpenPlan;
    }
    if eq_text(mode, "--focused-tab") {
        return Command::FocusedTab;
    }
    if eq_text(mode, "--auto-open") {
        return Command::AutoOpen;
    }
    if eq_text(mode, "--preview") {
        return if args.len() > 1 {
            Command::Preview(args[1].clone())
        } else {
            Command::PreviewOfNothing
        };
    }
    if eq_text(mode, "--view") {
        return Command::Run(
            if args.len() > 1 {
                view_from_flag(args[1].as_str())
            } else {
                None
            },
        );
    }
    Command::Unknown(args[0].clone())
}

/// The view to start with, and whether the sidebars of the workspace are followed:
/// the view that was asked for, or else the one that was open last.
pub fn first_view(pinned: Option<SideView>, merged: bool, active: SideView) -> (r: (SideView, bool))
    ensures
        r == (match pinned {
            Some(view) => (view, false),
            None => (
                if merged {
                    active
                } else {
                    SideView::Explorer
                },
                merged,
            ),
        }),
{
    match pinned {
        Some(view) => (view, false),
        None => (
            if merged {
                active
            } else {
                SideView::Explorer
            },
            merged,
        ),
    }
}

/// The view to go on with: the one that the other sidebars show, or else the one
/// that was kept.
pub fn next_view(shared: Option<SideView>, kept: SideView) -> (r: SideView)
    ensures
        r == (match shared {
            Some(view) => view,
            None => kept,
        }),
{
    match shared {
        Some(view) => view,
        None => kept,
    }
}

// ---- Following other sidebars ----

/// What to do about the connection to the other sidebars.
#[derive(Clone, Copy, PartialEq, Eq, Debug, Structural)]
pub enum SyncStep {
    Keep,
    Connect,
    /// Say that the views no longer share a pane, and disconnect.
    Disconnect,
}

/// What to do about the connection to the other sidebars: there is one while the
/// views share a pane.
pub fn configure_sync(connected: bool, enabled: bool) -> (r: SyncStep)
    ensures
        r == (if enabled && !connected {
            SyncStep::Connect
        } else if !enabled && connected {
            SyncStep::Disconnect
        } else {
            SyncStep::Keep
        }),
{
    if enabled {
        if !connected {
            return SyncStep::Connect;
        }
    } else if connected {
        return SyncStep::Disconnect;
    }
    SyncStep::Keep
}

/// An event of the terminal, as far as it decides who gets it.
#[derive(Clone, Copy, PartialEq, Eq, Debug, Structural)]
pub enum EventKind {
    Key,
    /// A button of the mouse went down.
    MouseDown,
    OtherMouse,
    FocusGained,
    FocusLost,
    Resize,
    Other,
}

/// What the other sidebars hear of an event.
#[derive(Clone, Copy, PartialEq, Eq, Debug, Structural)]
pub enum FocusNote {
    Gained,
    Lost,
    Interaction,
}

/// What the other sidebars hear of an event.
pub fn note_sync_focus(event: EventKind) -> (r: Option<FocusNote>)
    ensures
        r == (match event {
            EventKind::FocusGained => Some(FocusNote::Gained),
            EventKind::FocusLost => Some(FocusNote::Lost),
            EventKind::Key => Some(FocusNote::Interaction),
            EventKind::MouseDown => Some(FocusNote::Interaction),
            _ => None,
        }),
{
    match event {
        EventKind::FocusGained => Some(FocusNote::Gained),
        EventKind::FocusLost => Some(FocusNote::Lost),
        EventKind::Key => Some(FocusNote::Interaction),
        EventKind::MouseDown => Some(FocusNote::Interaction),
        _ => None,
    }
}

/// Who gets an event.
#[derive(Clone, Copy, PartialEq, Eq, Debug, Structural)]
pub enum Route {
    PreviewKey,
    PreviewMouse,
    ViewKey,
    /// The view, which takes the focus where `claim` says so.
    ViewMouse { claim: bool },
    FocusGained,
    FocusLost,
    Nobody,
}

/// Who gets an event: keys go to an open preview unless something is over the view,
/// and the mouse to the preview where it is in it.
pub fn route(event: EventKind, preview_open: bool, overlay: bool, preview_owns_mouse: bool) -> (r:
    Route)
    ensures
        r == (match event {
            EventKind::Key => if preview_open && !overlay {
                Route::PreviewKey
            } else {
                Route::ViewKey
            },
            EventKind::MouseDown => if preview_owns_mouse {
                Route::PreviewMouse
            } else {
                Route::ViewMouse { claim: true }
            },
            EventKind::OtherMouse => if preview_owns_mouse {
                Route::PreviewMouse
            } else {
                Route::ViewMouse { claim: false }
            },
            EventKind::FocusGained => Route::FocusGained,
            EventKind::FocusLost => Route::FocusLost,
            _ => Route::Nobody,
        }),
{
    match event {
        EventKind::Key => if preview_open && !overlay {
            Route::PreviewKey
        } else {
            Route::ViewKey
        },
        EventKind::MouseDown => if preview_owns_mouse {
            Route::PreviewMouse
        } else {
            Route::ViewMouse { claim: true }
        },
        EventKind::OtherMouse => if preview_owns_mouse {
            Route::PreviewMouse
        } else {
            Route::ViewMouse { claim: false }
        },
        EventKind::FocusGained => Route::FocusGained,
        EventKind::FocusLost => Route::FocusLost,
        _ => Route::Nobody,
    }
}

/// What another sidebar shares: its view, how wide it is, and whether it shares
/// anything of this view.
#[derive(Clone, Copy, PartialEq, Eq, Debug, Structural)]
pub struct Shared {
    pub active: SideView,
    pub width: u16,
    pub has_state: bool,
}

/// What to do after a look at what another sidebar shares.
#[derive(Clone, Copy, PartialEq, Eq, Debug, Structural)]
pub enum PollStep {
    Nothing,
    /// Another view is shown.
    Switch,
    /// Take over what is shared of this view, where there is something.
    Follow { state: bool },
}

/// What to do after the view was drawn.
#[derive(Clone, Copy, PartialEq, Eq, Debug, Structural)]
pub enum DrawStep {
    Nothing,
    /// Make the pane this wide.
    Resize(u16),
    /// Share the state of the view.
    PublishState,
    /// Share only which view is shown and how wide it is.
    PublishActive,
}

/// A view while it runs.
#[derive(Clone, Copy, PartialEq, Eq, Debug, Structural)]
pub struct RunLoop {
    pub view: SideView,
    /// How wide another sidebar is.
    pub target_width: Option<u16>,
    /// Whether the pane was resized by something else.
    pub width_dirty: bool,
    /// Until when a resize is the sidebar's own.
    pub ignore_resize_until: Option<u64>,
    /// Whether nothing of this view has been shared yet.
    pub needs_initial_publish: bool,
    pub last_refresh: u64,
}

/// A view that starts to run.
pub open spec fn started(view: SideView, latest: Option<Shared>, now: u64) -> (RunLoop, bool) {
    let follows = latest matches Some(s) && s.active == view;
    (
        RunLoop {
            view,
            target_width: if follows {
                Some((latest->0).width)
            } else {
                None
            },
            width_dirty: false,
            ignore_resize_until: None,
            needs_initial_publish: !(latest matches Some(s) && s.has_state),
            last_refresh: now,
        },
        follows && (latest->0).has_state,
    )
}

/// What another sidebar shares is looked at.
pub open spec fn followed(l: RunLoop, shared: Option<Shared>) -> (RunLoop, PollStep) {
    match shared {
        None => (l, PollStep::Nothing),
        Some(s) => if s.active != l.view {
            (l, PollStep::Switch)
        } else {
            (
                RunLoop { target_width: Some(s.width), ..l },
                PollStep::Follow { state: s.has_state },
            )
        },
    }
}

/// The view was drawn.
pub open spec fn drawn(l: RunLoop, width: u16, preview_open: bool, now: u64) -> (RunLoop, DrawStep) {
    if preview_open {
        (l, DrawStep::Nothing)
    } else {
        match l.target_width {
            Some(target) => if target > 0 && target != width {
                (
                    RunLoop {
                        target_width: None,
                        width_dirty: false,
                        ignore_resize_until: Some(
                            least(now + OWN_RESIZE, u64::MAX as int) as u64,
                        ),
                        ..l
                    },
                    DrawStep::Resize(target),
                )
            } else {
                (
                    RunLoop { target_width: None, width_dirty: false, ..l },
                    DrawStep::Nothing,
                )
            },
            None => if l.needs_initial_publish {
                (RunLoop { needs_initial_publish: false, ..l }, DrawStep::PublishState)
            } else if l.width_dirty {
                (RunLoop { width_dirty: false, ..l }, DrawStep::PublishActive)
            } else {
                (l, DrawStep::Nothing)
            },
        }
    }
}

/// The pane was resized.
pub open spec fn resized(l: RunLoop, now: u64) -> RunLoop {
    if l.ignore_resize_until matches Some(until) && now <= until {
        RunLoop { ignore_resize_until: None, ..l }
    } else {
        RunLoop { width_dirty: true, ..l }
    }
}

/// A resize that the sidebar made itself is not shared as news.
pub proof fn law_own_resizes_are_no_news(l: RunLoop, width: u16, drawn_at: u64, now: u64)
    requires
        drawn(l, width, false, drawn_at).1 is Resize,
        drawn_at <= now <= drawn_at + OWN_RESIZE,
    ensures
        ({
            let a = resized(drawn(l, width, false, drawn_at).0, now);
            !a.width_dirty && drawn(a, width, false, now).1 != DrawStep::PublishActive
        }),
{
}

/// The state of a view is shared once for a start, not over and over.
pub proof fn law_first_state_is_shared_once(l: RunLoop, width: u16, now: u64, later: u64)
    requires
        drawn(l, width, false, now).1 == DrawStep::PublishState,
    ensures
        drawn(drawn(l, width, false, now).0, width, false, later).1 != DrawStep::PublishState,
{
}

impl RunLoop {
    /// A view that starts to run, and whether it takes over what is shared of it.
    pub fn start(view: SideView, latest: Option<Shared>, now: u64) -> (r: (RunLoop, bool))
        ensures
            r == started(view, latest, now),
    {
        let mut target: Option<u16> = None;
        let mut fresh = true;
        let mut apply = false;
        if let Some(s) = latest {
            fresh = !s.has_state;
            if s.active == view {
                target = Some(s.width);
                apply = s.has_state;
            }
        }
        (
            RunLoop {
                view,
                target_width: target,
                width_dirty: false,
                ignore_resize_until: None,
                needs_initial_publish: fresh,
                last_refresh: now,
            },
            apply,
        )
    }

    /// Whether to look at what another sidebar shares: not while something is over
    /// the view.
    pub fn may_follow(overlay: bool, preview_open: bool) -> (r: bool)
        ensures
            r == (!overlay && !preview_open),
    {
        !overlay && !preview_open
    }

    /// Goes on after a look at what another sidebar shares.
    pub fn follow(&mut self, shared: Option<Shared>) -> (r: PollStep)
        ensures
            (*final(self), r) == followed(*old(self), shared),
    {
        match shared {
            None => PollStep::Nothing,
            Some(s) => {
                if s.active != self.view {
                    return PollStep::Switch;
                }
                self.target_width = Some(s.width);
                PollStep::Follow { state: s.has_state }
            },
        }
    }

    /// Goes on after the view was drawn.
    pub fn after_draw(&mut self, width: u16, preview_open: bool, now: u64) -> (r: DrawStep)
        ensures
            (*final(self), r) == drawn(*old(self), width, preview_open, now),
    {
        if preview_open {
            return DrawStep::Nothing;
        }
        if let Some(target) = self.target_width {
            self.target_width = None;
            self.width_dirty = false;
            if target > 0 && target != width {
                let until = if now > u64::MAX - OWN_RESIZE {
                    u64::MAX
                } else {
                    now + OWN_RESIZE
                };
                self.ignore_resize_until = Some(until);
                return DrawStep::Resize(target);
            }
            return DrawStep::Nothing;
        }
        if self.needs_initial_publish {
            self.needs_initial_publish = false;
            return DrawStep::PublishState;
        }
        if self.width_dirty {
            self.width_dirty = false;
            return DrawStep::PublishActive;
        }
        DrawStep::Nothing
    }

    /// Takes note that the pane was resized.
    pub fn on_resize(&mut self, now: u64)
        ensures
            *final(self) == resized(*old(self), now),
    {
        if let Some(until) = self.ignore_resize_until {
            if now <= until {
                self.ignore_resize_until = None;
                return;
            }
        }
        self.width_dirty = true;
    }

    /// Whether it is time to read the status anew.
    pub fn refresh_due(&mut self, now: u64) -> (r: bool)
        ensures
            r == (now - old(self).last_refresh >= REFRESH_EVERY),
            *final(self) == (if r {
                RunLoop { last_refresh: now, ..*old(self) }
            } else {
                *old(self)
            }),
    {
        if now < self.last_refresh || now - self.last_refresh < REFRESH_EVERY {
            return false;
        }
        self.last_refresh = now;
        true
    }

    /// Whether a change of the view is shared: the one that the user works in
    /// shares it.
    pub fn publishes(changed: bool, had_event: bool, pane_focused: bool) -> (r: bool)
        ensures
            r == (changed && (had_event || pane_focused)),
    {
        changed && (had_event || pane_focused)
    }

    /// What is shared when the view ends: the view that is shown next, and whether
    /// this sidebar gives up the focus.
    pub fn last_words(&self, exit: Exit, kept: SideView) -> (r: (SideView, bool))
        ensures
            r == (
                if exit == Exit::Switch {
                    kept
                } else {
                    self.view
                },
                exit == Exit::Quit,
            ),
    {
        let active = if exit == Exit::Switch {
            kept
        } else {
            self.view
        };
        (active, exit == Exit::Quit)
    }
}

} // verus!
