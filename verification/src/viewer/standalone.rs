//! The viewer in a pane of its own, and how a sidebar opens and closes its
//! viewer.

use vstd::prelude::*;

use crate::diffview::FoldId;
use crate::input::{Key, KeyCode, Mouse, MouseKind, Rect};
use crate::paths::under_dir;
use crate::style::{lines_view, plain_line, raw_line, Line};
use crate::text::cat;
use crate::viewer::doc::{
    anchor_of, first_change_requested, fresh, restored, shaped, Doc, DocView,
};
use crate::viewer::load::{prepare_new_request, request_prepared};
use crate::viewer::preview::{
    add_fold, effects, fold_in, fold_of, key_scroll, no_effects, push_effect, scroll_key,
    scroll_wheel, wheel_scroll, Effect, EffectView,
};
use crate::viewer::request::{
    control_name, control_path, control_request, controlled, inline_control, inline_request, opt_str,
    alike, parse_request, parsed, request_view, same_request, Request, RequestView,
};

verus! {

/// The viewer in a pane of its own.
pub struct Standalone {
    pub current: Option<Request>,
    pub doc: Doc,
    pub expanded_folds: Vec<FoldId>,
    pub diff_theme: usize,
    pub hide_unmodified: bool,
    /// How many rows a page has.
    pub page: usize,
    pub body: Rect,
    /// How often nothing happened.
    pub beat: u64,
}

#[verifier::ext_equal]
pub struct StandaloneView {
    pub current: Option<RequestView>,
    pub doc: DocView,
    pub expanded_folds: Seq<FoldId>,
    pub diff_theme: usize,
    pub hide_unmodified: bool,
    pub page: usize,
    pub body: Rect,
    pub beat: u64,
}

impl View for Standalone {
    type V = StandaloneView;

    open spec fn view(&self) -> StandaloneView {
        StandaloneView {
            current: request_view(self.current),
            doc: self.doc@,
            expanded_folds: self.expanded_folds@,
            diff_theme: self.diff_theme,
            hide_unmodified: self.hide_unmodified,
            page: self.page,
            body: self.body,
            beat: self.beat,
        }
    }
}

/// What comes after a key or a mouse event.
#[derive(Clone, Copy, Debug, PartialEq, Eq, Structural)]
pub enum Turn {
    Stay,
    Close,
    /// Load the document anew, and keep what is on the screen in place.
    ReloadInPlace,
}

/// What comes after a while in which nothing happened.
#[derive(Clone, Copy, Debug, PartialEq, Eq, Structural)]
pub enum Idle {
    Stay,
    /// Load what is asked for now, and say what is shown.
    Load,
    /// Load the diff anew; centre its first change, or keep where it is scrolled to.
    Reload { center: bool },
}

pub open spec fn closes(code: KeyCode) -> bool {
    code == KeyCode::Esc || code == KeyCode::Char('q')
}

/// What a key does.
pub open spec fn key_turn(s: StandaloneView, key: Key) -> (StandaloneView, Turn) {
    if !key.press {
        (s, Turn::Stay)
    } else if closes(key.code) {
        (s, Turn::Close)
    } else {
        (
            StandaloneView {
                doc: DocView { scroll: key_scroll(s.doc, key.code, s.page), ..s.doc },
                ..s
            },
            Turn::Stay,
        )
    }
}

/// What a mouse event does: the wheel scrolls, the top row closes, and a press on
/// a fold opens it.
pub open spec fn mouse_turn(s: StandaloneView, mouse: Mouse) -> (StandaloneView, Turn) {
    match mouse.kind {
        MouseKind::ScrollUp | MouseKind::ScrollDown => (
            StandaloneView {
                doc: DocView { scroll: wheel_scroll(s.doc, mouse.kind), ..s.doc },
                ..s
            },
            Turn::Stay,
        ),
        MouseKind::LeftDown => if mouse.row == 0 {
            (s, Turn::Close)
        } else {
            match fold_in(s.doc, s.body, mouse) {
                Some(fold) => if s.expanded_folds.contains(fold) {
                    (s, Turn::Stay)
                } else {
                    (
                        StandaloneView { expanded_folds: s.expanded_folds.push(fold), ..s },
                        if s.current is Some {
                            Turn::ReloadInPlace
                        } else {
                            Turn::Stay
                        },
                    )
                },
                None => (s, Turn::Stay),
            }
        },
        _ => (s, Turn::Stay),
    }
}

/// Whether the same is asked for, or nothing both times.
pub open spec fn same_asked(a: Option<RequestView>, b: Option<RequestView>) -> bool {
    match (a, b) {
        (Some(a), Some(b)) => alike(a, b),
        (None, None) => true,
        _ => false,
    }
}

/// What a while does in which nothing happened. The second value says whether to
/// say again who shows what.
pub open spec fn idle_turn(
    s: StandaloneView,
    target: Option<RequestView>,
    theme: usize,
    hide: bool,
) -> (StandaloneView, bool, Idle) {
    let beat = if s.beat < u64::MAX {
        (s.beat + 1) as u64
    } else {
        0
    };
    let a = StandaloneView { beat, ..s };
    let report = beat % 20 == 0;
    let settings = StandaloneView { diff_theme: theme, hide_unmodified: hide, ..a };
    if !same_asked(target, a.current) {
        if target is Some {
            (
                StandaloneView { current: target, expanded_folds: Seq::empty(), ..settings },
                report,
                Idle::Load,
            )
        } else {
            (
                StandaloneView { current: None, expanded_folds: Seq::empty(), ..a },
                report,
                Idle::Stay,
            )
        }
    } else if beat % 8 == 0 && a.current matches Some(RequestView::Diff { .. }) {
        let changed = hide != a.hide_unmodified;
        (
            StandaloneView {
                expanded_folds: if changed {
                    Seq::empty()
                } else {
                    a.expanded_folds
                },
                ..settings
            },
            report,
            Idle::Reload { center: changed && !hide },
        )
    } else {
        (a, report, Idle::Stay)
    }
}

/// What is shown where there is nothing to show.
pub open spec fn waiting() -> DocView {
    fresh(
        "(nothing to show)"@,
        ""@,
        seq![raw_line("(waiting for a click in the sidebar)"@)],
        false,
        Seq::empty(),
    )
}

fn same_target(a: &Option<Request>, b: &Option<Request>) -> (r: bool)
    ensures
        r == same_asked(request_view(*a), request_view(*b)),
{
    match (a, b) {
        (Some(a), Some(b)) => same_request(a, b),
        (None, None) => true,
        _ => false,
    }
}

impl Standalone {
    /// Begins with what the control file asks for, loaded already.
    pub fn new(
        asked: Option<(Request, Doc)>,
        diff_theme: usize,
        hide_unmodified: bool,
        now: u64,
    ) -> (r: Standalone)
        ensures
            r@ == (StandaloneView {
                current: match asked {
                    Some((request, _)) => Some(request@),
                    None => None,
                },
                doc: match asked {
                    Some((request, doc)) => request_prepared(
                        doc@,
                        request@,
                        hide_unmodified,
                        now,
                    ),
                    None => waiting(),
                },
                expanded_folds: Seq::empty(),
                diff_theme,
                hide_unmodified,
                page: 20,
                body: crate::input::no_rect(),
                beat: 0,
            }),
    {
        let (current, doc) = match asked {
            Some((request, doc)) => {
                let mut doc = doc;
                prepare_new_request(&mut doc, &request, hide_unmodified, now);
                (Some(request), doc)
            },
            None => {
                let mut lines: Vec<Line> = Vec::new();
                lines.push(plain_line("(waiting for a click in the sidebar)"));
                let folds: Vec<Option<FoldId>> = Vec::new();
                assert(folds@ =~= Seq::empty());
                assert(lines_view(lines@) =~= seq![
                    raw_line("(waiting for a click in the sidebar)"@),
                ]);
                let doc = Doc::new(
                    "(nothing to show)".to_string(),
                    "".to_string(),
                    lines,
                    false,
                    folds,
                );
                (None, doc)
            },
        };
        let r = Standalone {
            current,
            doc,
            expanded_folds: Vec::new(),
            diff_theme,
            hide_unmodified,
            page: 20,
            body: Rect::default(),
            beat: 0,
        };
        assert(r@.expanded_folds =~= Seq::empty());
        r
    }

    pub fn on_key(&mut self, key: Key) -> (r: Turn)
        ensures
            (final(self)@, r) == key_turn(old(self)@, key),
    {
        if !key.press {
            return Turn::Stay;
        }
        if key.code == KeyCode::Esc || key.code == KeyCode::Char('q') {
            return Turn::Close;
        }
        scroll_key(&mut self.doc, key.code, self.page);
        Turn::Stay
    }

    pub fn on_mouse(&mut self, mouse: Mouse) -> (r: Turn)
        ensures
            (final(self)@, r) == mouse_turn(old(self)@, mouse),
    {
        match mouse.kind {
            MouseKind::ScrollUp | MouseKind::ScrollDown => {
                scroll_wheel(&mut self.doc, mouse.kind);
                Turn::Stay
            },
            MouseKind::LeftDown => {
                if mouse.row == 0 {
                    return Turn::Close;
                }
                if let Some(fold) = fold_of(&self.doc, self.body, &mouse) {
                    if add_fold(&mut self.expanded_folds, fold) && self.current.is_some() {
                        return Turn::ReloadInPlace;
                    }
                }
                Turn::Stay
            },
            _ => Turn::Stay,
        }
    }

    /// Nothing happened for a while. `target` is what the control file asks for, and
    /// the settings are as they were read just now.
    pub fn idle(&mut self, target: Option<Request>, diff_theme: usize, hide_unmodified: bool) -> (r: (
        bool,
        Idle,
    ))
        ensures
            (final(self)@, r.0, r.1) == idle_turn(
                old(self)@,
                request_view(target),
                diff_theme,
                hide_unmodified,
            ),
    {
        self.beat = if self.beat < u64::MAX {
            self.beat + 1
        } else {
            0
        };
        let report = self.beat % 20 == 0;
        if !same_target(&target, &self.current) {
            let some = target.is_some();
            self.current = target;
            self.expanded_folds = Vec::new();
            assert(self@.expanded_folds =~= Seq::empty());
            if some {
                self.diff_theme = diff_theme;
                self.hide_unmodified = hide_unmodified;
                return (report, Idle::Load);
            }
            return (report, Idle::Stay);
        }
        if self.beat % 8 == 0 {
            if let Some(Request::Diff { .. }) = &self.current {
                let changed = hide_unmodified != self.hide_unmodified;
                if changed {
                    self.expanded_folds = Vec::new();
                    assert(self@.expanded_folds =~= Seq::empty());
                }
                self.diff_theme = diff_theme;
                self.hide_unmodified = hide_unmodified;
                return (report, Idle::Reload { center: changed && !hide_unmodified });
            }
        }
        (report, Idle::Stay)
    }

    /// Shows what was loaded for a new request.
    pub fn show(&mut self, doc: Doc, now: u64)
        ensures
            final(self)@ == (StandaloneView {
                doc: match old(self)@.current {
                    Some(request) => request_prepared(
                        doc@,
                        request,
                        old(self)@.hide_unmodified,
                        now,
                    ),
                    None => doc@,
                },
                ..old(self)@
            }),
    {
        let mut doc = doc;
        if let Some(request) = &self.current {
            prepare_new_request(&mut doc, request, self.hide_unmodified, now);
        }
        self.doc = doc;
    }

    /// Shows a diff that was loaded anew.
    pub fn reload(&mut self, doc: Doc, center: bool)
        ensures
            final(self)@ == (StandaloneView {
                doc: if center {
                    first_change_requested(doc@)
                } else {
                    DocView { scroll: old(self)@.doc.scroll, ..doc@ }
                },
                ..old(self)@
            }),
    {
        let mut doc = doc;
        if center {
            doc.request_first_change_center();
        } else {
            doc.scroll = self.doc.scroll;
        }
        self.doc = doc;
    }

    /// Shows a diff that was loaded anew, and keeps what is on the screen in place.
    pub fn reload_in_place(&mut self, doc: Doc)
        ensures
            final(self)@ == (StandaloneView {
                doc: kept_in_place(old(self)@.doc, doc@, old(self)@.body),
                ..old(self)@
            }),
    {
        let keep = self.doc.scroll;
        let anchor = self.doc.view_anchor(self.body.width, self.body.height);
        let mut doc = doc;
        let placed = match &anchor {
            Some(a) => doc.restore_view_anchor(a, self.body.width),
            None => false,
        };
        if !placed {
            doc.scroll = keep;
        }
        self.doc = doc;
    }
}

/// A document loaded anew, with what was on the screen where it was.
pub open spec fn kept_in_place(before: DocView, doc: DocView, body: Rect) -> DocView {
    match anchor_of(shaped(before, body.width), body.height) {
        None => DocView { scroll: before.scroll, ..doc },
        Some(a) => match restored(shaped(doc, body.width), a) {
            Some(d) => d,
            None => DocView { scroll: before.scroll, ..shaped(doc, body.width) },
        },
    }
}

// ---- Opening and closing the viewer of a sidebar ----

/// What a control file asks of the viewer beside the sidebar: the sidebar's width
/// and what to show.
pub open spec fn inline_asked(raw: Seq<char>) -> Option<(u16, RequestView)> {
    let (width, request) = controlled(raw);
    match (width, parsed(request)) {
        (Some(width), Some(request)) => Some((width, request)),
        _ => None,
    }
}

pub fn read_inline_control(raw: &str) -> (r: Option<(u16, Request)>)
    ensures
        (match r {
            Some((width, request)) => Some((width, request@)),
            None => None,
        }) == inline_asked(raw@),
{
    let (width, request) = control_request(raw);
    match (width, parse_request(request.as_str())) {
        (Some(width), Some(request)) => Some((width, request)),
        _ => None,
    }
}

/// What a control file asks of the viewer in a pane of its own.
pub fn read_control(raw: &str) -> (r: Option<Request>)
    ensures
        request_view(r) == parsed(controlled(raw@).1),
{
    let (_, request) = control_request(raw);
    parse_request(request.as_str())
}

/// The next thing to do to open the viewer.
pub enum OpenStep {
    /// Write this text to this file.
    Write(String, String),
    /// Zoom this pane.
    Zoom(String),
    /// Remove this file.
    Remove(String),
    Done(Result<(), String>),
}

#[verifier::ext_equal]
pub enum OpenView {
    Write(Seq<char>, Seq<char>),
    Zoom(Seq<char>),
    Remove(Seq<char>),
    Opened,
    Failed(Seq<char>),
}

impl View for OpenStep {
    type V = OpenView;

    open spec fn view(&self) -> OpenView {
        match *self {
            OpenStep::Write(path, text) => OpenView::Write(path@, text@),
            OpenStep::Zoom(pane) => OpenView::Zoom(pane@),
            OpenStep::Remove(path) => OpenView::Remove(path@),
            OpenStep::Done(Ok(())) => OpenView::Opened,
            OpenStep::Done(Err(e)) => OpenView::Failed(e@),
        }
    }
}

/// How wide the sidebar is to stay: as wide as it was, where the viewer is open.
pub open spec fn kept_width(control: Option<Seq<char>>, columns: Option<u16>) -> u16 {
    match (match control {
        Some(raw) => inline_asked(raw),
        None => None,
    }) {
        Some((width, _)) => width,
        None => match columns {
            Some(columns) => columns,
            None => 30,
        },
    }
}

/// The next step of opening, after those that are done.
pub open spec fn next_opening(
    pane: Seq<char>,
    control: Seq<char>,
    text: Seq<char>,
    done: Seq<Result<(), String>>,
) -> OpenView {
    if done.len() == 0 {
        OpenView::Write(control, text)
    } else {
        match done[0] {
            Err(e) => OpenView::Failed("preview failed: "@ + e@),
            Ok(()) => if done.len() == 1 {
                OpenView::Zoom(pane)
            } else {
                match done[1] {
                    Ok(()) => OpenView::Opened,
                    Err(e) => if done.len() == 2 {
                        OpenView::Remove(control)
                    } else {
                        OpenView::Failed("preview failed to focus: "@ + e@)
                    },
                }
            },
        }
    }
}

/// Opens the viewer beside the sidebar in this pane, or has it show something
/// else. `control` is what its control file holds, `columns` is how wide the
/// terminal is, and `done` is how each step so far ended.
pub fn open_in_pane(
    my_pane_id: &str,
    scratch: &str,
    payload: &str,
    control: Option<&str>,
    columns: Option<u16>,
    done: &Vec<Result<(), String>>,
) -> (r: OpenStep)
    ensures
        r@ == next_opening(
            my_pane_id@,
            under_dir(scratch@, control_name(my_pane_id@)),
            inline_control(kept_width(opt_str(control), columns), payload@),
            done@,
        ),
{
    if done.len() == 0 {
        let asked = match control {
            Some(raw) => read_inline_control(raw),
            None => None,
        };
        let width = match asked {
            Some((width, _)) => width,
            None => match columns {
                Some(columns) => columns,
                None => 30,
            },
        };
        return OpenStep::Write(control_path(scratch, my_pane_id), inline_request(width, payload));
    }
    if let Err(e) = &done[0] {
        return OpenStep::Done(Err(cat("preview failed: ", e.as_str())));
    }
    if done.len() == 1 {
        return OpenStep::Zoom(my_pane_id.to_string());
    }
    match &done[1] {
        Ok(()) => OpenStep::Done(Ok(())),
        Err(e) => if done.len() == 2 {
            OpenStep::Remove(control_path(scratch, my_pane_id))
        } else {
            OpenStep::Done(Err(cat("preview failed to focus: ", e.as_str())))
        },
    }
}

/// Closes the viewer beside the sidebar in this pane, where its control file is
/// there.
pub fn close_in_tab(my_pane_id: &str, scratch: &str, present: bool) -> (r: Vec<Effect>)
    ensures
        effects(r@) == (if present {
            seq![
                EffectView::RemoveControl(under_dir(scratch@, control_name(my_pane_id@))),
                EffectView::ZoomOff(my_pane_id@),
            ]
        } else {
            Seq::empty()
        }),
{
    let mut r = no_effects();
    if present {
        push_effect(&mut r, Effect::RemoveControl(control_path(scratch, my_pane_id)));
        push_effect(&mut r, Effect::ZoomOff(my_pane_id.to_string()));
        assert(effects(r@) =~= seq![
            EffectView::RemoveControl(under_dir(scratch@, control_name(my_pane_id@))),
            EffectView::ZoomOff(my_pane_id@),
        ]);
    }
    r
}

/// A viewer that is opened leaves a control file that asks for what was to be
/// shown, at the width that the sidebar had, and one that could not be opened
/// leaves none.
pub proof fn law_opening_is_all_or_nothing(
    pane: Seq<char>,
    control: Seq<char>,
    text: Seq<char>,
    done: Seq<Result<(), String>>,
)
    ensures
        next_opening(pane, control, text, done) is Opened ==> done.len() >= 2 && done[0] is Ok
            && done[1] is Ok && next_opening(pane, control, text, done.take(0)) == OpenView::Write(
            control,
            text,
        ),
        next_opening(pane, control, text, done) is Failed ==> done[0] is Err || next_opening(
            pane,
            control,
            text,
            done.take(2),
        ) == OpenView::Remove(control),
{
}

/// While the viewer is open, showing something else keeps the sidebar's width.
pub proof fn law_width_is_kept(control: Seq<char>, width: u16, columns: Option<u16>)
    requires
        inline_asked(control) matches Some((w, _)) && w == width,
    ensures
        kept_width(Some(control), columns) == width,
{
}

} // verus!
