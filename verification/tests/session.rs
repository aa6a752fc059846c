use herdr_sidebar::session::{
    configure_sync, first_view, next_view, note_sync_focus, parse_args, route, Command, DrawStep,
    EventKind, FocusNote, PollStep, Route, RunLoop, Shared, SyncStep, OWN_RESIZE, REFRESH_EVERY,
};
use herdr_sidebar::sidebar::{Exit, SideView};

fn command(args: &[&str]) -> Command {
    parse_args(&args.iter().map(|arg| arg.to_string()).collect())
}

fn shared(active: SideView, width: u16, has_state: bool) -> Option<Shared> {
    Some(Shared { active, width, has_state })
}

#[test]
fn the_command_line_is_read() {
    assert!(matches!(command(&[]), Command::Run(None)));
    assert!(matches!(command(&["--view", "git"]), Command::Run(Some(SideView::SourceControl))));
    assert!(matches!(command(&["--view", "elsewhere"]), Command::Run(None)));
    assert!(matches!(command(&["--preview"]), Command::PreviewOfNothing));
    assert!(matches!(command(&["--preview", "/tmp/c"]), Command::Preview(path) if path == "/tmp/c"));
    assert!(matches!(
        command(&["--launch-decision", "git"]),
        Command::LaunchDecision { git: true }
    ));
    assert!(matches!(command(&["--launch-decision"]), Command::LaunchDecision { git: false }));
    assert!(matches!(command(&["--focused-pane"]), Command::FocusedPane));
    assert!(matches!(command(&["--open-plan"]), Command::OpenPlan));
    assert!(matches!(command(&["--focused-tab"]), Command::FocusedTab));
    assert!(matches!(command(&["--auto-open"]), Command::AutoOpen));
    assert!(matches!(command(&["--help"]), Command::Unknown(mode) if mode == "--help"));
}

#[test]
fn a_pinned_view_follows_nobody() {
    assert_eq!(
        first_view(Some(SideView::Search), true, SideView::Explorer),
        (SideView::Search, false)
    );
    assert_eq!(
        first_view(None, true, SideView::SourceControl),
        (SideView::SourceControl, true)
    );
    assert_eq!(
        first_view(None, false, SideView::SourceControl),
        (SideView::Explorer, false)
    );
    assert_eq!(next_view(Some(SideView::Search), SideView::Explorer), SideView::Search);
    assert_eq!(next_view(None, SideView::Explorer), SideView::Explorer);
}

#[test]
fn the_connection_follows_the_setting() {
    assert_eq!(configure_sync(false, true), SyncStep::Connect);
    assert_eq!(configure_sync(true, false), SyncStep::Disconnect);
    assert_eq!(configure_sync(true, true), SyncStep::Keep);
    assert_eq!(configure_sync(false, false), SyncStep::Keep);
}

#[test]
fn events_reach_the_preview_or_the_view() {
    assert_eq!(route(EventKind::Key, true, false, false), Route::PreviewKey);
    assert_eq!(route(EventKind::Key, true, true, false), Route::ViewKey);
    assert_eq!(route(EventKind::MouseDown, true, false, true), Route::PreviewMouse);
    assert_eq!(
        route(EventKind::MouseDown, false, false, false),
        Route::ViewMouse { claim: true }
    );
    assert_eq!(
        route(EventKind::OtherMouse, false, false, false),
        Route::ViewMouse { claim: false }
    );
    assert_eq!(route(EventKind::Resize, false, false, false), Route::Nobody);
    assert_eq!(note_sync_focus(EventKind::FocusGained), Some(FocusNote::Gained));
    assert_eq!(note_sync_focus(EventKind::FocusLost), Some(FocusNote::Lost));
}

#[test]
fn own_resizes_are_no_news() {
    let (mut run, apply) = RunLoop::start(SideView::Search, shared(SideView::Search, 50, true), 0);
    assert!(apply);
    assert_eq!(run.after_draw(32, false, 100), DrawStep::Resize(50));
    run.on_resize(100 + OWN_RESIZE);
    assert!(!run.width_dirty);
    run.on_resize(200);
    assert!(run.width_dirty);
    assert_eq!(run.after_draw(50, false, 300), DrawStep::PublishActive);
    assert_eq!(run.after_draw(50, false, 400), DrawStep::Nothing);
}

#[test]
fn the_first_state_is_shared_once() {
    let (mut run, apply) = RunLoop::start(SideView::Explorer, None, 0);
    assert!(!apply);
    assert_eq!(run.after_draw(32, true, 0), DrawStep::Nothing);
    assert_eq!(run.after_draw(32, false, 0), DrawStep::PublishState);
    assert_eq!(run.after_draw(32, false, 0), DrawStep::Nothing);
}

#[test]
fn another_view_takes_over() {
    let (mut run, _) = RunLoop::start(SideView::Explorer, None, 0);
    assert_eq!(run.follow(shared(SideView::Search, 40, true)), PollStep::Switch);
    assert_eq!(
        run.follow(shared(SideView::Explorer, 40, false)),
        PollStep::Follow { state: false }
    );
    assert_eq!(run.target_width, Some(40));
    assert_eq!(run.follow(None), PollStep::Nothing);
    assert!(!RunLoop::may_follow(true, false));
    assert!(RunLoop::may_follow(false, false));
    assert!(RunLoop::publishes(true, false, true));
    assert!(!RunLoop::publishes(true, false, false));
    assert_eq!(run.last_words(Exit::Switch, SideView::Search), (SideView::Search, false));
    assert_eq!(run.last_words(Exit::Quit, SideView::Search), (SideView::Explorer, true));
}

#[test]
fn the_status_is_read_anew_after_a_while() {
    let (mut run, _) = RunLoop::start(SideView::SourceControl, None, 0);
    assert!(!run.refresh_due(REFRESH_EVERY - 1));
    assert!(run.refresh_due(REFRESH_EVERY));
    assert!(!run.refresh_due(REFRESH_EVERY + 1));
}
