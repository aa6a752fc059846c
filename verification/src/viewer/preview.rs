//! The viewer that shares the sidebar's pane: what keys, the mouse and time do
//! to it, and what it asks of the terminal and the host.

use vstd::prelude::*;

use crate::diffview::FoldId;
use crate::git::copy_opt;
use crate::input::{
    hits, inside, least, monus, most, no_modifiers, no_rect, Key, KeyCode, Mouse, MouseKind, Platform,
    Rect,
};
use crate::scan::{digits, digits_of, trim, trimmed, Class};
use crate::text::{cat, cat3, chars_of, opt_text, text_of};
use crate::style::{spans_view, Span, SpanView};
use crate::viewer::comments::{
    agents_view, bracketed_paste, comments_on, count_for, format_comments, formatted,
    copies, is_copy_shortcut, line_begin, paste_end, paste_start, pending_comment, pending_of,
    remove_comments_for_file, saved_view, step_left, step_right, unified, unmarked, vertical,
    without_file, AgentTarget, AgentView, CommentDraft, DraftView, FooterAction, SavedComment,
    SavedView,
};
use crate::viewer::doc::{
    anchor_of, deadline, dragged, exported, first_change_requested, hit_at, later, prepared,
    restored, selected, selected_words, shaped, source_row, visual_count, Doc, DocView,
};
use crate::viewer::draw::{doc_row, doc_row_at, footer_of, layout_footer, FooterView};
use crate::viewer::load::{prepare_new_request, request_prepared};
use crate::paths::under_dir;
use crate::viewer::peers::{focused_peer_in_tab, peer_of, peers_view, PeerPane, PeerView};
use crate::viewer::request::{
    alike, control_name, control_path, opt_str, request_view, same_request, Request, RequestView,
};
use crate::viewer::rows::{covers, HitPoint, TextSelection};

verus! {

/// How long a notice is shown, in milliseconds.
pub const NOTICE_DURATION: u64 = 3000;

/// How often a diff is loaded anew, in milliseconds.
pub const REFRESH: u64 = 2000;

/// The viewer keeps this many columns where there are enough.
pub const MIN_PREVIEW_WIDTH: u16 = 24;

/// The agents that comments can be sent to, to choose one.
pub struct AgentPicker {
    pub agents: Vec<AgentTarget>,
    pub selected: usize,
    pub scroll: usize,
    pub rect: Rect,
}

#[verifier::ext_equal]
pub struct PickerView {
    pub agents: Seq<AgentView>,
    pub selected: int,
    pub scroll: usize,
    pub rect: Rect,
}

impl View for AgentPicker {
    type V = PickerView;

    open spec fn view(&self) -> PickerView {
        PickerView {
            agents: agents_view(self.agents@),
            selected: self.selected as int,
            scroll: self.scroll,
            rect: self.rect,
        }
    }
}

/// The comment under the mouse, and until when it is shown.
#[derive(Clone, Copy, Debug, PartialEq, Eq, Structural)]
pub struct CommentHover {
    pub index: usize,
    pub x: u16,
    pub y: u16,
    pub until: u64,
}

/// What the viewer asks for.
pub enum Effect {
    /// Have the terminal say where pasted text begins and ends.
    EnablePaste,
    DisablePaste,
    /// Put the selection on the clipboard.
    CopySelection(String),
    /// Put the comments on the clipboard.
    CopyComments(String),
    /// List the agents in the tab of this pane.
    ListAgents(String),
    /// Write text to this pane.
    SendComments(String, String),
    RemoveControl(String),
    /// End the zoom of this pane.
    ZoomOff(String),
    /// Focus this pane.
    Focus(String),
    /// Load what is asked for, and show it.
    Load(Request),
    /// Load the current document anew; centre its first change, or keep where it
    /// is scrolled to.
    Reload { center: bool },
    /// Load the current document anew, and keep what is on the screen in place.
    ReloadInPlace,
}

#[verifier::ext_equal]
pub enum EffectView {
    EnablePaste,
    DisablePaste,
    CopySelection(Seq<char>),
    CopyComments(Seq<char>),
    ListAgents(Seq<char>),
    SendComments(Seq<char>, Seq<char>),
    RemoveControl(Seq<char>),
    ZoomOff(Seq<char>),
    Focus(Seq<char>),
    Load(RequestView),
    Reload { center: bool },
    ReloadInPlace,
}

impl View for Effect {
    type V = EffectView;

    open spec fn view(&self) -> EffectView {
        match *self {
            Effect::EnablePaste => EffectView::EnablePaste,
            Effect::DisablePaste => EffectView::DisablePaste,
            Effect::CopySelection(t) => EffectView::CopySelection(t@),
            Effect::CopyComments(t) => EffectView::CopyComments(t@),
            Effect::ListAgents(p) => EffectView::ListAgents(p@),
            Effect::SendComments(p, t) => EffectView::SendComments(p@, t@),
            Effect::RemoveControl(c) => EffectView::RemoveControl(c@),
            Effect::ZoomOff(p) => EffectView::ZoomOff(p@),
            Effect::Focus(p) => EffectView::Focus(p@),
            Effect::Load(r) => EffectView::Load(r@),
            Effect::Reload { center } => EffectView::Reload { center },
            Effect::ReloadInPlace => EffectView::ReloadInPlace,
        }
    }
}

pub open spec fn effects(v: Seq<Effect>) -> Seq<EffectView> {
    v.map_values(|e: Effect| e@)
}

pub fn no_effects() -> (r: Vec<Effect>)
    ensures
        effects(r@) == Seq::<EffectView>::empty(),
{
    let r: Vec<Effect> = Vec::new();
    assert(effects(r@) =~= Seq::empty());
    r
}

fn one_effect(e: Effect) -> (r: Vec<Effect>)
    ensures
        effects(r@) == seq![e@],
{
    let mut r: Vec<Effect> = Vec::new();
    r.push(e);
    assert(effects(r@) =~= seq![e@]);
    r
}

pub fn push_effect(out: &mut Vec<Effect>, e: Effect)
    ensures
        effects(final(out)@) == effects(old(out)@).push(e@),
{
    let ghost before = effects(out@);
    out.push(e);
    assert(effects(out@) =~= before.push(e@));
}

/// The viewer that shares the sidebar's pane.
pub struct InlinePreview {
    pub owner: Option<String>,
    pub restore_focus: Option<String>,
    pub control: Option<String>,
    pub current: Option<Request>,
    pub doc: Option<Doc>,
    pub diff_theme: usize,
    pub hide_unmodified: bool,
    pub expanded_folds: Vec<FoldId>,
    pub sidebar_width: u16,
    pub area: Rect,
    pub body: Rect,
    pub dragging_selection: bool,
    pub selection_dragged: bool,
    pub comments: Vec<SavedComment>,
    pub draft: Option<CommentDraft>,
    pub agent_picker: Option<AgentPicker>,
    pub footer_actions: Vec<(Rect, FooterAction)>,
    pub footer_hover: Option<FooterAction>,
    pub comment_hover: Option<CommentHover>,
    pub notice: Option<(String, u64)>,
    pub last_refresh: u64,
    pub platform: Platform,
}

#[verifier::ext_equal]
pub struct PreviewView {
    pub owner: Option<Seq<char>>,
    pub restore_focus: Option<Seq<char>>,
    pub control: Option<Seq<char>>,
    pub current: Option<RequestView>,
    pub doc: Option<DocView>,
    pub diff_theme: usize,
    pub hide_unmodified: bool,
    pub expanded_folds: Seq<FoldId>,
    pub sidebar_width: u16,
    pub area: Rect,
    pub body: Rect,
    pub dragging_selection: bool,
    pub selection_dragged: bool,
    pub comments: Seq<SavedView>,
    pub draft: Option<DraftView>,
    pub agent_picker: Option<PickerView>,
    pub footer_actions: Seq<(Rect, FooterAction)>,
    pub footer_hover: Option<FooterAction>,
    pub comment_hover: Option<CommentHover>,
    pub notice: Option<(Seq<char>, u64)>,
    pub last_refresh: u64,
    pub platform: Platform,
}

pub open spec fn doc_view(d: Option<Doc>) -> Option<DocView> {
    match d {
        Some(d) => Some(d@),
        None => None,
    }
}

pub open spec fn draft_view(d: Option<CommentDraft>) -> Option<DraftView> {
    match d {
        Some(d) => Some(d@),
        None => None,
    }
}

pub open spec fn picker_view(p: Option<AgentPicker>) -> Option<PickerView> {
    match p {
        Some(p) => Some(p@),
        None => None,
    }
}

impl View for InlinePreview {
    type V = PreviewView;

    open spec fn view(&self) -> PreviewView {
        PreviewView {
            owner: opt_text(self.owner),
            restore_focus: opt_text(self.restore_focus),
            control: opt_text(self.control),
            current: request_view(self.current),
            doc: doc_view(self.doc),
            diff_theme: self.diff_theme,
            hide_unmodified: self.hide_unmodified,
            expanded_folds: self.expanded_folds@,
            sidebar_width: self.sidebar_width,
            area: self.area,
            body: self.body,
            dragging_selection: self.dragging_selection,
            selection_dragged: self.selection_dragged,
            comments: saved_view(self.comments@),
            draft: draft_view(self.draft),
            agent_picker: picker_view(self.agent_picker),
            footer_actions: self.footer_actions@,
            footer_hover: self.footer_hover,
            comment_hover: self.comment_hover,
            notice: match self.notice {
                Some((m, until)) => Some((m@, until)),
                None => None,
            },
            last_refresh: self.last_refresh,
            platform: self.platform,
        }
    }
}

pub type Outcome = (PreviewView, Seq<EffectView>);

/// A selection begins in a row of its document, and a draft's caret is between
/// characters.
pub open spec fn sound(p: PreviewView) -> bool {
    &&& p.doc matches Some(d) ==> sound_doc(d)
    &&& p.draft matches Some(d) ==> d.at is Some
}

pub open spec fn sound_doc(d: DocView) -> bool {
    d.selection matches Some(s) ==> s.anchor.row < d.sources.len()
}

// ---- Notices and comments ----

pub open spec fn noticed(p: PreviewView, message: Seq<char>, now: u64) -> PreviewView {
    PreviewView { notice: Some((message, deadline(now, NOTICE_DURATION))), ..p }
}

/// A comment on the selection is begun.
pub open spec fn comment_started(p: PreviewView, cwd: Option<Seq<char>>, now: u64) -> Outcome {
    match p.current {
        None => (p, Seq::empty()),
        Some(request) => match (match p.doc {
            Some(d) => exported(d),
            None => None,
        }) {
            None => (noticed(p, "Select text first"@, now), Seq::empty()),
            Some(selection) => match pending_of(request, selection, cwd) {
                None => (noticed(p, "Comments unavailable"@, now), Seq::empty()),
                Some(pending) => (
                    PreviewView {
                        notice: None,
                        draft: Some(DraftView { pending, input: Seq::empty(), at: Some(0) }),
                        agent_picker: None,
                        ..p
                    },
                    seq![EffectView::EnablePaste],
                ),
            },
        },
    }
}

/// A draft is given up.
pub open spec fn comment_cancelled(p: PreviewView) -> Outcome {
    if p.draft is Some {
        (PreviewView { draft: None, notice: None, ..p }, seq![EffectView::DisablePaste])
    } else {
        (p, Seq::empty())
    }
}

/// A draft becomes a comment, unless it is blank.
pub open spec fn comment_saved(p: PreviewView, now: u64) -> Outcome {
    match p.draft {
        None => (p, Seq::empty()),
        Some(draft) => if trim(draft.input, Class::White).len() == 0 {
            (noticed(p, "Comment is empty"@, now), Seq::empty())
        } else {
            (
                PreviewView {
                    draft: None,
                    comments: p.comments.push(
                        SavedView { pending: draft.pending, body: draft.input },
                    ),
                    doc: match p.doc {
                        Some(d) => Some(DocView { selection: None, ..d }),
                        None => None,
                    },
                    notice: None,
                    ..p
                },
                seq![EffectView::DisablePaste],
            )
        },
    }
}

/// `s` where there is more than one.
pub open spec fn plural(n: nat) -> Seq<char> {
    if n == 1 {
        ""@
    } else {
        "s"@
    }
}

/// The comments on the current file are dropped.
pub open spec fn comments_cleared(p: PreviewView, now: u64) -> PreviewView {
    match p.current {
        None => p,
        Some(current) => {
            let n = count_for(p.comments, current);
            noticed(
                PreviewView {
                    comments: without_file(p.comments, current),
                    comment_hover: None,
                    ..p
                },
                if n == 0 {
                    "No comments in this file"@
                } else {
                    "Cleared "@ + digits(n) + " comment"@ + plural(n)
                },
                now,
            )
        },
    }
}

pub open spec fn selection_copied(p: PreviewView, now: u64) -> Outcome {
    match (match p.doc {
        Some(d) => selected_words(d),
        None => None,
    }) {
        None => (noticed(p, "No text selected"@, now), Seq::empty()),
        Some(text) => (p, seq![EffectView::CopySelection(text)]),
    }
}

pub open spec fn comments_copied(p: PreviewView, now: u64) -> Outcome {
    if p.comments.len() == 0 {
        (noticed(p, "No comments to copy"@, now), Seq::empty())
    } else {
        (p, seq![EffectView::CopyComments(formatted(p.comments))])
    }
}

/// How the copying of the comments ended: a failure keeps them.
pub open spec fn copy_ended(p: PreviewView, ok: bool, now: u64) -> PreviewView {
    let n = p.comments.len();
    if ok {
        noticed(
            PreviewView { comments: Seq::empty(), comment_hover: None, ..p },
            "Copied "@ + digits(n) + " comment"@ + plural(n),
            now,
        )
    } else {
        noticed(p, "Copy failed; kept "@ + digits(n), now)
    }
}

pub open spec fn agent_wanted(p: PreviewView, now: u64) -> Outcome {
    if p.comments.len() == 0 {
        (noticed(p, "No comments to send"@, now), Seq::empty())
    } else {
        match p.owner {
            None => (noticed(p, "Sidebar unavailable"@, now), Seq::empty()),
            Some(owner) => (p, seq![EffectView::ListAgents(owner)]),
        }
    }
}

/// The comments are sent to an agent's pane, as pasted text.
pub open spec fn sent_to(p: PreviewView, agent: AgentView) -> EffectView {
    EffectView::SendComments(
        agent.pane_id,
        paste_start() + unmarked(formatted(p.comments), 0) + paste_end(),
    )
}

/// The agents were listed: one is written to, of several one is chosen.
pub open spec fn agents_found(p: PreviewView, found: Option<Seq<AgentView>>, now: u64) -> Outcome {
    match found {
        None => (noticed(p, "Agent list failed"@, now), Seq::empty()),
        Some(agents) => if agents.len() == 0 {
            (noticed(p, "No agents in this tab"@, now), Seq::empty())
        } else if agents.len() == 1 {
            (p, seq![sent_to(p, agents[0])])
        } else {
            (
                PreviewView {
                    agent_picker: Some(
                        PickerView { agents, selected: 0, scroll: 0, rect: no_rect() },
                    ),
                    ..p
                },
                Seq::empty(),
            )
        },
    }
}

/// How sending the comments ended: a failure keeps them, and after a success the
/// viewer makes way for the agent.
pub open spec fn send_ended(p: PreviewView, pane: Seq<char>, ok: bool, now: u64) -> Outcome {
    if ok {
        let (q, e) = closed(PreviewView { comments: Seq::empty(), agent_picker: None, ..p });
        (q, e.push(EffectView::Focus(pane)))
    } else {
        (
            noticed(
                PreviewView { agent_picker: None, ..p },
                "Send failed; kept "@ + digits(p.comments.len()),
                now,
            ),
            Seq::empty(),
        )
    }
}

// ---- Opening and closing ----

pub open spec fn opt_effect(v: Option<Seq<char>>, f: spec_fn(Seq<char>) -> EffectView) -> Seq<
    EffectView,
> {
    match v {
        Some(s) => seq![f(s)],
        None => Seq::empty(),
    }
}

/// The viewer is closed: its control file goes, the zoom ends, and the pane that
/// had the focus before gets it back.
pub open spec fn closed(p: PreviewView) -> Outcome {
    if p.doc is None {
        (p, Seq::empty())
    } else {
        let (q, e) = comment_cancelled(p);
        (
            PreviewView {
                agent_picker: None,
                footer_actions: Seq::empty(),
                footer_hover: None,
                comment_hover: None,
                current: None,
                doc: None,
                dragging_selection: false,
                selection_dragged: false,
                expanded_folds: Seq::empty(),
                restore_focus: None,
                ..q
            },
            e + opt_effect(p.control, |c: Seq<char>| EffectView::RemoveControl(c)) + opt_effect(
                p.owner,
                |o: Seq<char>| EffectView::ZoomOff(o),
            ) + opt_effect(p.restore_focus, |f: Seq<char>| EffectView::Focus(f)),
        )
    }
}

/// What the control file says is followed: a new request is loaded with the
/// settings as they are now.
pub open spec fn synced(
    p: PreviewView,
    read: Option<(u16, RequestView)>,
    theme: usize,
    hide: bool,
) -> Outcome {
    if p.control is None {
        (p, Seq::empty())
    } else {
        match read {
            None => if p.current is None {
                (p, Seq::empty())
            } else {
                let (q, e) = comment_cancelled(p);
                (
                    PreviewView {
                        agent_picker: None,
                        current: None,
                        doc: None,
                        expanded_folds: Seq::empty(),
                        ..q
                    },
                    e,
                )
            },
            Some((width, request)) => if p.current is Some && alike(p.current->0, request) {
                (p, Seq::empty())
            } else {
                let (q, e) = comment_cancelled(p);
                (
                    PreviewView {
                        agent_picker: None,
                        sidebar_width: most(width as int, 1) as u16,
                        diff_theme: theme,
                        hide_unmodified: hide,
                        expanded_folds: Seq::empty(),
                        ..q
                    },
                    e.push(EffectView::Load(request)),
                )
            },
        }
    }
}

/// What was asked for is shown.
pub open spec fn shown(p: PreviewView, request: RequestView, doc: DocView, now: u64) -> PreviewView {
    PreviewView {
        doc: Some(request_prepared(doc, request, p.hide_unmodified, now)),
        current: Some(request),
        dragging_selection: false,
        selection_dragged: false,
        last_refresh: now,
        ..p
    }
}

pub open spec fn scroll_of(p: PreviewView) -> int {
    match p.doc {
        Some(d) => d.scroll,
        None => 0,
    }
}

/// The current document was loaded anew.
pub open spec fn reloaded(p: PreviewView, doc: DocView, center: bool, now: u64) -> PreviewView {
    if p.current is None {
        p
    } else {
        PreviewView {
            doc: Some(
                if center {
                    first_change_requested(doc)
                } else {
                    DocView { scroll: scroll_of(p), ..doc }
                },
            ),
            last_refresh: now,
            ..p
        }
    }
}

/// The current document was loaded anew, and what was on the screen stays there
/// where it is found again.
pub open spec fn reloaded_in_place(p: PreviewView, doc: DocView, now: u64) -> PreviewView {
    if p.current is None {
        p
    } else {
        let anchor = match p.doc {
            Some(d) => anchor_of(shaped(d, p.body.width), p.body.height),
            None => None,
        };
        let next = match anchor {
            None => DocView { scroll: scroll_of(p), ..doc },
            Some(a) => match restored(shaped(doc, p.body.width), a) {
                Some(d) => d,
                None => DocView { scroll: scroll_of(p), ..shaped(doc, p.body.width) },
            },
        };
        PreviewView { doc: Some(next), last_refresh: now, ..p }
    }
}

/// Whether something is going on that loading anew would disturb.
pub open spec fn busy(p: PreviewView) -> bool {
    p.draft is Some || p.agent_picker is Some || p.comments.len() > 0 || (p.doc matches Some(d)
        && selected(d) is Some)
}

/// Time passes: old notices go, changed settings are followed, and diffs are
/// loaded anew.
pub open spec fn ticked(p: PreviewView, theme: usize, hide: bool, now: u64) -> Outcome {
    let a = match p.notice {
        Some((_, until)) if now >= until => PreviewView { notice: None, ..p },
        _ => p,
    };
    if busy(a) {
        (a, Seq::empty())
    } else {
        let folds_changed = hide != a.hide_unmodified;
        let changed = theme != a.diff_theme || folds_changed;
        let b = if changed {
            PreviewView {
                diff_theme: theme,
                hide_unmodified: hide,
                expanded_folds: if folds_changed {
                    Seq::empty()
                } else {
                    a.expanded_folds
                },
                ..a
            }
        } else {
            a
        };
        if changed && b.current is Some {
            (
                PreviewView { last_refresh: now, ..b },
                seq![EffectView::Reload { center: folds_changed && !hide }],
            )
        } else if monus(now as int, b.last_refresh as int) < REFRESH {
            (b, Seq::empty())
        } else {
            let c = PreviewView { last_refresh: now, ..b };
            if c.current matches Some(RequestView::Diff { .. }) {
                (c, seq![EffectView::Reload { center: false }])
            } else {
                (c, Seq::empty())
            }
        }
    }
}

/// The areas of the sidebar and of the viewer beside it.
pub open spec fn split_area(sidebar_width: u16, area: Rect) -> (Rect, Rect) {
    let min = most(least(MIN_PREVIEW_WIDTH as int, monus(area.width as int, 1)), 1);
    let w = least(
        most(least(sidebar_width as int, monus(area.width as int, min)), 1),
        area.width as int,
    );
    (
        Rect { width: w as u16, ..area },
        Rect { x: (area.x + w) as u16, width: monus(area.width as int, w) as u16, ..area },
    )
}

// ---- Keys ----

/// What a key does to a draft.
pub open spec fn draft_typed(d: DraftView, key: Key) -> DraftView {
    let m = key.modifiers;
    let at = d.at->0;
    let command = m.control && !m.alt;
    match key.code {
        KeyCode::Enter => inserted(d, "\n"@),
        KeyCode::Backspace => {
            let from = step_left(d.input, at);
            DraftView {
                pending: d.pending,
                input: d.input.take(from) + d.input.skip(at),
                at: Some(from),
            }
        },
        KeyCode::Delete => DraftView {
            pending: d.pending,
            input: d.input.take(at) + d.input.skip(step_right(d.input, at)),
            at: d.at,
        },
        KeyCode::Left => DraftView { at: Some(step_left(d.input, at)), ..d },
        KeyCode::Right => DraftView { at: Some(step_right(d.input, at)), ..d },
        KeyCode::Up => DraftView { at: Some(vertical(d.input, at, false)), ..d },
        KeyCode::Down => DraftView { at: Some(vertical(d.input, at, true)), ..d },
        KeyCode::Home => DraftView { at: Some(line_begin(d.input, at)), ..d },
        KeyCode::End => DraftView {
            at: Some(crate::text::find_char(d.input, '\n', at)),
            ..d
        },
        KeyCode::Char(c) => if c == 'j' && command {
            inserted(d, "\n"@)
        } else if c == 'a' && command {
            DraftView { at: Some(0), ..d }
        } else if c == 'e' && command {
            DraftView { at: Some(d.input.len() as int), ..d }
        } else if !m.command && (!m.control || m.alt) {
            inserted(d, seq![c])
        } else {
            d
        },
        _ => d,
    }
}

pub open spec fn inserted(d: DraftView, text: Seq<char>) -> DraftView {
    let t = unified(text, 0);
    DraftView {
        pending: d.pending,
        input: d.input.take(d.at->0) + t + d.input.skip(d.at->0),
        at: Some(d.at->0 + t.len()),
    }
}

/// What a key does while a comment is being written.
pub open spec fn draft_key_step(p: PreviewView, key: Key, now: u64) -> Outcome {
    if key.code == KeyCode::Esc {
        comment_cancelled(p)
    } else if key.code == KeyCode::Enter && !key.modifiers.shift && !key.modifiers.alt {
        comment_saved(p, now)
    } else {
        match p.draft {
            None => (p, Seq::empty()),
            Some(d) => (PreviewView { draft: Some(draft_typed(d, key)), ..p }, Seq::empty()),
        }
    }
}

/// The agent that a key chooses.
pub open spec fn key_agent(picker: PickerView, code: KeyCode) -> Option<int> {
    match code {
        KeyCode::Enter => Some(picker.selected),
        KeyCode::Char(c) => if '1' <= c && c <= '9' {
            Some((c as u32) as int - 49)
        } else {
            None
        },
        _ => None,
    }
}

/// Where a key moves the choice of an agent.
pub open spec fn key_choice(picker: PickerView, code: KeyCode) -> int {
    let max = monus(picker.agents.len() as int, 1);
    match code {
        KeyCode::Up | KeyCode::Char('k') => monus(picker.selected, 1),
        KeyCode::Down | KeyCode::Char('j') => least(picker.selected + 1, max),
        KeyCode::Home | KeyCode::Char('g') => 0,
        KeyCode::End | KeyCode::Char('G') => max,
        _ => picker.selected,
    }
}

/// What a key does while an agent is chosen.
pub open spec fn picker_key_step(p: PreviewView, key: Key) -> Outcome {
    if key.code == KeyCode::Esc {
        (PreviewView { agent_picker: None, ..p }, Seq::empty())
    } else {
        match p.agent_picker {
            None => (p, Seq::empty()),
            Some(picker) => match key_agent(picker, key.code) {
                Some(i) => if 0 <= i < picker.agents.len() {
                    (p, seq![sent_to(p, picker.agents[i])])
                } else {
                    (p, Seq::empty())
                },
                None => (
                    PreviewView {
                        agent_picker: Some(
                            PickerView { selected: key_choice(picker, key.code), ..picker },
                        ),
                        ..p
                    },
                    Seq::empty(),
                ),
            },
        }
    }
}

/// Where a key scrolls a document to. `page` is how many rows a page has.
pub open spec fn key_scroll(d: DocView, code: KeyCode, page: usize) -> int {
    let max = monus(visual_count(d), 1);
    match code {
        KeyCode::Up | KeyCode::Char('k') => monus(d.scroll, 1),
        KeyCode::Down | KeyCode::Char('j') => least(d.scroll + 1, max),
        KeyCode::PageUp => monus(d.scroll, page as int),
        KeyCode::PageDown => least(d.scroll + page, max),
        KeyCode::Home | KeyCode::Char('g') => 0,
        KeyCode::End | KeyCode::Char('G') => max,
        _ => d.scroll,
    }
}

/// What a key does. A draft also takes keys that repeat.
pub open spec fn key_step(
    p: PreviewView,
    key: Key,
    repeat: bool,
    cwd: Option<Seq<char>>,
    now: u64,
) -> Outcome {
    let plain = key.modifiers == no_modifiers();
    if p.draft is Some && (key.press || repeat) {
        draft_key_step(p, key, now)
    } else if !key.press {
        (p, Seq::empty())
    } else if p.agent_picker is Some {
        picker_key_step(p, key)
    } else if copies(key, p.platform) {
        selection_copied(p, now)
    } else if key.code == KeyCode::Char('c') && plain {
        comment_started(p, cwd, now)
    } else if key.code == KeyCode::Char('y') && plain {
        comments_copied(p, now)
    } else if key.code == KeyCode::Char('s') && plain {
        agent_wanted(p, now)
    } else if key.code == KeyCode::Char('d') && plain {
        (comments_cleared(p, now), Seq::empty())
    } else if key.code == KeyCode::Esc && (p.doc matches Some(d) && selected(d) is Some) {
        (
            PreviewView { doc: Some(DocView { selection: None, ..p.doc->0 }), ..p },
            Seq::empty(),
        )
    } else if key.code == KeyCode::Esc || key.code == KeyCode::Char('q') {
        closed(p)
    } else {
        match p.doc {
            None => (p, Seq::empty()),
            Some(d) => (
                PreviewView { doc: Some(DocView { scroll: key_scroll(d, key.code, 20), ..d }), ..p },
                Seq::empty(),
            ),
        }
    }
}

// ---- The mouse ----

/// What the mouse hits in the document.
pub open spec fn mouse_hit(p: PreviewView, mouse: Mouse) -> Option<HitPoint> {
    match p.doc {
        None => None,
        Some(d) => match doc_row(p.body, d.scroll, mouse) {
            None => None,
            Some(row) => hit_at(d, row as int, monus(mouse.column as int, p.body.x as int)),
        },
    }
}

/// The last of the first `n` comments on this document that covers what was hit.
pub open spec fn comment_covering(
    comments: Seq<SavedView>,
    current: RequestView,
    hit: HitPoint,
    n: int,
) -> Option<usize>
    decreases n,
{
    if n <= 0 {
        None
    } else if alike(comments[n - 1].pending.document, current) && covers(
        comments[n - 1].pending.range,
        hit,
    ) {
        Some((n - 1) as usize)
    } else {
        comment_covering(comments, current, hit, n - 1)
    }
}

/// The comment under the mouse.
pub open spec fn comment_under(p: PreviewView, mouse: Mouse) -> Option<usize> {
    match (p.current, mouse_hit(p, mouse)) {
        (Some(current), Some(hit)) => comment_covering(
            p.comments,
            current,
            hit,
            p.comments.len() as int,
        ),
        _ => None,
    }
}

/// The first action at or after `i` that stands under the mouse.
pub open spec fn action_under(
    actions: Seq<(Rect, FooterAction)>,
    mouse: Mouse,
    i: int,
) -> Option<FooterAction>
    decreases actions.len() - i,
{
    if i >= actions.len() {
        None
    } else if inside(actions[i].0, mouse.column, mouse.row) {
        Some(actions[i].1)
    } else {
        action_under(actions, mouse, i + 1)
    }
}

/// The fold of a document that is under the mouse.
pub open spec fn fold_in(d: DocView, body: Rect, mouse: Mouse) -> Option<FoldId> {
    match doc_row(body, d.scroll, mouse) {
        None => None,
        Some(visual) => match source_row(d, visual as int) {
            Some(row) if row < d.folds.len() => d.folds[row as int],
            _ => None,
        },
    }
}

/// The fold under the mouse.
pub open spec fn fold_under(p: PreviewView, mouse: Mouse) -> Option<FoldId> {
    match p.doc {
        None => None,
        Some(d) => fold_in(d, p.body, mouse),
    }
}

/// What an action of the footer does.
pub open spec fn action_step(
    p: PreviewView,
    action: FooterAction,
    cwd: Option<Seq<char>>,
    now: u64,
) -> Outcome {
    match action {
        FooterAction::Comment => comment_started(p, cwd, now),
        FooterAction::CopySelection => selection_copied(p, now),
        FooterAction::CopyComments => comments_copied(p, now),
        FooterAction::Send => agent_wanted(p, now),
        FooterAction::ClearFileComments => (comments_cleared(p, now), Seq::empty()),
    }
}

/// What a press in the document does: it begins a selection, opens a fold, or
/// clears the selection. Nothing where it is outside.
pub open spec fn press_step(p: PreviewView, mouse: Mouse) -> Option<Outcome> {
    match mouse_hit(p, mouse) {
        Some(hit) => Some(
            (
                PreviewView {
                    doc: Some(
                        DocView {
                            selection: Some(
                                TextSelection { anchor: hit.before, cursor: hit.before },
                            ),
                            ..p.doc->0
                        },
                    ),
                    dragging_selection: true,
                    selection_dragged: false,
                    ..p
                },
                Seq::empty(),
            ),
        ),
        None => match fold_under(p, mouse) {
            Some(fold) => Some(
                if p.expanded_folds.contains(fold) {
                    (p, Seq::empty())
                } else {
                    (
                        PreviewView { expanded_folds: p.expanded_folds.push(fold), ..p },
                        seq![EffectView::ReloadInPlace],
                    )
                },
            ),
            None => if inside(p.body, mouse.column, mouse.row) {
                Some(
                    (
                        PreviewView {
                            doc: match p.doc {
                                Some(d) => Some(DocView { selection: None, ..d }),
                                None => None,
                            },
                            dragging_selection: false,
                            selection_dragged: false,
                            ..p
                        },
                        Seq::empty(),
                    ),
                )
            } else {
                None
            },
        },
    }
}

/// Where a drag is in the document, which scrolls by a row where the drag is
/// above or below it.
pub open spec fn drag_row(d: DocView, body: Rect, mouse: Mouse) -> (DocView, Option<int>) {
    let max = monus(visual_count(d), 1);
    let columns = body.x <= mouse.column < crate::viewer::draw::edge(body.x, body.width);
    match doc_row(body, d.scroll, mouse) {
        Some(row) => (d, Some(row as int)),
        None => if columns && mouse.row < body.y {
            let e = DocView { scroll: monus(d.scroll, 1), ..d };
            (e, Some(e.scroll))
        } else if columns && mouse.row >= crate::viewer::draw::edge(body.y, body.height) {
            let e = DocView { scroll: least(d.scroll + 1, max), ..d };
            (e, Some(least(e.scroll + monus(body.height as int, 1), max)))
        } else {
            (d, None)
        },
    }
}

/// The selection extended to what stands in this row under the mouse.
pub open spec fn drag_in_row(d: DocView, body: Rect, mouse: Mouse, row: Option<int>) -> DocView {
    match row {
        None => d,
        Some(row) => match hit_at(d, row, monus(mouse.column as int, body.x as int)) {
            Some(hit) => dragged(d, hit),
            None => d,
        },
    }
}

/// What a mouse event that presses nothing does to the document.
pub open spec fn motion_step(p: PreviewView, d: DocView, mouse: Mouse) -> PreviewView {
    let max = monus(visual_count(d), 1);
    match mouse.kind {
        MouseKind::LeftDrag => if p.dragging_selection {
            let (e, row) = drag_row(d, p.body, mouse);
            PreviewView {
                selection_dragged: true,
                doc: Some(drag_in_row(e, p.body, mouse, row)),
                ..p
            }
        } else {
            p
        },
        MouseKind::LeftUp => if p.dragging_selection {
            let row = doc_row(p.body, d.scroll, mouse);
            PreviewView {
                dragging_selection: false,
                selection_dragged: false,
                doc: Some(
                    if p.selection_dragged && row is Some {
                        drag_in_row(d, p.body, mouse, Some(row->0 as int))
                    } else {
                        DocView { selection: None, ..d }
                    },
                ),
                ..p
            }
        } else {
            p
        },
        MouseKind::ScrollUp => PreviewView {
            dragging_selection: false,
            selection_dragged: false,
            doc: Some(DocView { scroll: monus(d.scroll, 3), ..d }),
            ..p
        },
        MouseKind::ScrollDown => PreviewView {
            dragging_selection: false,
            selection_dragged: false,
            doc: Some(DocView { scroll: least(d.scroll + 3, max), ..d }),
            ..p
        },
        _ => p,
    }
}

/// What the mouse does while an agent is chosen. `picked` is the agent under it.
pub open spec fn picker_mouse_step(p: PreviewView, mouse: Mouse, picked: Option<usize>) -> Outcome {
    let q = PreviewView { comment_hover: None, ..p };
    let picker = p.agent_picker->0;
    if mouse.kind != MouseKind::LeftDown {
        (q, Seq::empty())
    } else {
        match picked {
            None => (q, Seq::empty()),
            Some(index) => if index == picker.selected {
                if index < picker.agents.len() {
                    (q, seq![sent_to(q, picker.agents[index as int])])
                } else {
                    (q, Seq::empty())
                }
            } else {
                (
                    PreviewView {
                        agent_picker: Some(PickerView { selected: index as int, ..picker }),
                        ..q
                    },
                    Seq::empty(),
                )
            },
        }
    }
}

/// What is under the mouse is noted.
pub open spec fn hovered(p: PreviewView, mouse: Mouse, linger: u64, now: u64) -> PreviewView {
    PreviewView {
        comment_hover: if mouse.kind == MouseKind::Moved {
            match comment_under(p, mouse) {
                Some(index) => Some(
                    CommentHover {
                        index,
                        x: mouse.column,
                        y: mouse.row,
                        until: deadline(now, linger),
                    },
                ),
                None => None,
            }
        } else if mouse.kind == MouseKind::ScrollUp || mouse.kind == MouseKind::ScrollDown {
            None
        } else {
            p.comment_hover
        },
        footer_hover: action_under(p.footer_actions, mouse, 0),
        ..p
    }
}

/// What a mouse event does. `linger` is how long a comment's note stays.
pub open spec fn mouse_step(
    p: PreviewView,
    mouse: Mouse,
    picked: Option<usize>,
    cwd: Option<Seq<char>>,
    linger: u64,
    now: u64,
) -> Outcome {
    let press = mouse.kind == MouseKind::LeftDown;
    if press && mouse.row == p.area.y && mouse.column < p.area.x + 5 {
        closed(p)
    } else if p.draft is Some {
        (PreviewView { comment_hover: None, ..p }, Seq::empty())
    } else if p.agent_picker is Some {
        picker_mouse_step(p, mouse, picked)
    } else {
        let q = hovered(p, mouse, linger, now);
        if press && q.footer_hover is Some {
            action_step(q, q.footer_hover->0, cwd, now)
        } else if press && press_step(q, mouse) is Some {
            press_step(q, mouse)->0
        } else {
            match q.doc {
                None => (q, Seq::empty()),
                Some(d) => (motion_step(q, d, mouse), Seq::empty()),
            }
        }
    }
}

/// A viewer that shows nothing, for the sidebar in a pane.
pub open spec fn created(
    pane_id: Option<Seq<char>>,
    peers: Seq<PeerView>,
    scratch: Seq<char>,
    theme: usize,
    hide: bool,
    platform: Platform,
    now: u64,
) -> PreviewView {
    let owner = match pane_id {
        Some(id) if id.len() > 0 => Some(id),
        _ => None,
    };
    PreviewView {
        owner,
        restore_focus: match owner {
            Some(id) => peer_of(peers, id),
            None => None,
        },
        control: match owner {
            Some(id) => Some(under_dir(scratch, control_name(id))),
            None => None,
        },
        current: None,
        doc: None,
        diff_theme: theme,
        hide_unmodified: hide,
        expanded_folds: Seq::empty(),
        sidebar_width: 30,
        area: no_rect(),
        body: no_rect(),
        dragging_selection: false,
        selection_dragged: false,
        comments: Seq::empty(),
        draft: None,
        agent_picker: None,
        footer_actions: Seq::empty(),
        footer_hover: None,
        comment_hover: None,
        notice: None,
        last_refresh: now,
        platform,
    }
}

/// The pane that has the focus is remembered, while nothing is shown.
pub open spec fn observed(p: PreviewView, peers: Seq<PeerView>) -> PreviewView {
    if p.doc is Some {
        p
    } else {
        match p.owner {
            None => p,
            Some(owner) => match peer_of(peers, owner) {
                Some(peer) => PreviewView { restore_focus: Some(peer), ..p },
                None => p,
            },
        }
    }
}

/// A sum that is at most `max`.
pub fn down_by(at: usize, step: usize, max: usize) -> (r: usize)
    ensures
        r == least(at + step, max as int),
{
    if at <= max && step <= max - at {
        at + step
    } else {
        max
    }
}

pub fn up_by(at: usize, step: usize) -> (r: usize)
    ensures
        r == monus(at as int, step as int),
{
    if at > step {
        at - step
    } else {
        0
    }
}

fn plural_of(n: usize) -> (r: &'static str)
    ensures
        r@ == plural(n as nat),
{
    if n == 1 {
        ""
    } else {
        "s"
    }
}

/// `<verb> <n> comment<s>`.
fn counted(verb: &str, n: usize) -> (r: String)
    ensures
        r@ == verb@ + digits(n as nat) + " comment"@ + plural(n as nat),
{
    let d = text_of(&digits_of(n));
    let s = cat3(verb, d.as_str(), " comment");
    cat(s.as_str(), plural_of(n))
}

impl InlinePreview {
    /// A viewer for the sidebar in this pane. `peers` are the panes, as far as they
    /// could be listed.
    pub fn for_current_pane(
        pane_id: Option<String>,
        peers: &Vec<PeerPane>,
        scratch: &str,
        diff_theme: usize,
        hide_unmodified: bool,
        platform: Platform,
        now: u64,
    ) -> (r: (InlinePreview, Vec<Effect>))
        ensures
            r.0@ == created(
                opt_text(pane_id),
                peers_view(peers@),
                scratch@,
                diff_theme,
                hide_unmodified,
                platform,
                now,
            ),
            effects(r.1@) == opt_effect(
                r.0@.control,
                |c: Seq<char>| EffectView::RemoveControl(c),
            ),
            sound(r.0@),
    {
        let owner = match pane_id {
            Some(id) => if id.as_str().is_empty() {
                None
            } else {
                Some(id)
            },
            None => None,
        };
        let restore_focus = match &owner {
            Some(id) => focused_peer_in_tab(peers, id.as_str()),
            None => None,
        };
        let control = match &owner {
            Some(id) => Some(control_path(scratch, id.as_str())),
            None => None,
        };
        let removed = match &control {
            Some(c) => one_effect(Effect::RemoveControl(c.as_str().to_string())),
            None => no_effects(),
        };
        let p = InlinePreview {
            owner,
            restore_focus,
            control,
            current: None,
            doc: None,
            diff_theme,
            hide_unmodified,
            expanded_folds: Vec::new(),
            sidebar_width: 30,
            area: Rect::default(),
            body: Rect::default(),
            dragging_selection: false,
            selection_dragged: false,
            comments: Vec::new(),
            draft: None,
            agent_picker: None,
            footer_actions: Vec::new(),
            footer_hover: None,
            comment_hover: None,
            notice: None,
            last_refresh: now,
            platform,
        };
        assert(p@ =~= created(
            opt_text(pane_id),
            peers_view(peers@),
            scratch@,
            diff_theme,
            hide_unmodified,
            platform,
            now,
        ));
        (p, removed)
    }

    pub fn is_open(&self) -> (r: bool)
        ensures
            r == (self@.doc is Some),
    {
        self.doc.is_some()
    }

    fn set_notice(&mut self, message: String, now: u64)
        ensures
            final(self)@ == noticed(old(self)@, message@, now),
    {
        self.notice = Some((message, later(now, NOTICE_DURATION)));
    }

    /// Begins a comment on the selection.
    pub fn start_comment(&mut self, cwd: Option<&str>, now: u64) -> (r: Vec<Effect>)
        requires
            sound(old(self)@),
        ensures
            (final(self)@, effects(r@)) == comment_started(old(self)@, opt_str(cwd), now),
            sound(final(self)@),
    {
        let exported_selection = match &self.doc {
            Some(d) => d.selection_export(),
            None => None,
        };
        let found = match &self.current {
            None => {
                return no_effects();
            },
            Some(request) => match exported_selection {
                None => None,
                Some(selection) => Some(pending_comment(request, selection, cwd)),
            },
        };
        match found {
            None => {
                self.set_notice("Select text first".to_string(), now);
                no_effects()
            },
            Some(None) => {
                self.set_notice("Comments unavailable".to_string(), now);
                no_effects()
            },
            Some(Some(pending)) => {
                self.notice = None;
                let input = "".to_string();
                let draft = CommentDraft { pending, input, caret: 0 };
                proof {
                    reveal_strlit("");
                    assert(draft.input@ =~= Seq::empty());
                    crate::bytes::lemma_char_found(draft.input@, 0);
                }
                self.draft = Some(draft);
                self.agent_picker = None;
                one_effect(Effect::EnablePaste)
            },
        }
    }

    /// Gives a comment up.
    pub fn cancel_comment(&mut self) -> (r: Vec<Effect>)
        ensures
            (final(self)@, effects(r@)) == comment_cancelled(old(self)@),
    {
        if self.draft.is_some() {
            self.draft = None;
            self.notice = None;
            one_effect(Effect::DisablePaste)
        } else {
            no_effects()
        }
    }

    /// Keeps a comment, unless it is blank.
    pub fn save_comment(&mut self, now: u64) -> (r: Vec<Effect>)
        requires
            sound(old(self)@),
        ensures
            (final(self)@, effects(r@)) == comment_saved(old(self)@, now),
            sound(final(self)@),
    {
        let blank = match &self.draft {
            None => {
                return no_effects();
            },
            Some(d) => trimmed(&chars_of(d.input.as_str()), Class::White).len() == 0,
        };
        if blank {
            self.set_notice("Comment is empty".to_string(), now);
            return no_effects();
        }
        let ghost before = self@.comments;
        if let Some(d) = self.draft.take() {
            let saved = SavedComment { pending: d.pending, body: d.input };
            let ghost one = saved@;
            self.comments.push(saved);
            assert(saved_view(self.comments@) =~= before.push(one));
        }
        self.drop_selection();
        self.notice = None;
        one_effect(Effect::DisablePaste)
    }

    fn drop_selection(&mut self)
        ensures
            final(self)@ == (PreviewView {
                doc: match old(self)@.doc {
                    Some(d) => Some(DocView { selection: None, ..d }),
                    None => None,
                },
                ..old(self)@
            }),
    {
        if let Some(mut d) = self.doc.take() {
            d.clear_selection();
            self.doc = Some(d);
        }
    }

    /// How many comments the current file has.
    pub fn current_comment_count(&self) -> (r: usize)
        ensures
            r == (match self@.current {
                Some(current) => count_for(self@.comments, current),
                None => 0,
            }),
    {
        match &self.current {
            Some(current) => comments_on(&self.comments, current),
            None => 0,
        }
    }

    /// Drops the comments on the current file.
    pub fn clear_current_file_comments(&mut self, now: u64)
        ensures
            final(self)@ == comments_cleared(old(self)@, now),
    {
        let removed = match &self.current {
            Some(current) => remove_comments_for_file(&mut self.comments, current),
            None => {
                return;
            },
        };
        self.comment_hover = None;
        if removed == 0 {
            self.set_notice("No comments in this file".to_string(), now);
        } else {
            self.set_notice(counted("Cleared ", removed), now);
        }
    }

    /// Asks for the selection to be put on the clipboard.
    pub fn copy_selection(&mut self, now: u64) -> (r: Vec<Effect>)
        ensures
            (final(self)@, effects(r@)) == selection_copied(old(self)@, now),
    {
        let text = match &self.doc {
            Some(d) => d.selected_text(),
            None => None,
        };
        match text {
            Some(text) => one_effect(Effect::CopySelection(text)),
            None => {
                self.set_notice("No text selected".to_string(), now);
                no_effects()
            },
        }
    }

    /// Says how putting the selection on the clipboard ended.
    pub fn selection_copy_ended(&mut self, ok: bool, now: u64)
        ensures
            final(self)@ == noticed(
                old(self)@,
                if ok {
                    "Selection copied"@
                } else {
                    "Clipboard failed"@
                },
                now,
            ),
    {
        if ok {
            self.set_notice("Selection copied".to_string(), now);
        } else {
            self.set_notice("Clipboard failed".to_string(), now);
        }
    }

    /// Asks for the comments to be put on the clipboard.
    pub fn copy_comments(&mut self, now: u64) -> (r: Vec<Effect>)
        ensures
            (final(self)@, effects(r@)) == comments_copied(old(self)@, now),
    {
        if self.comments.len() == 0 {
            self.set_notice("No comments to copy".to_string(), now);
            return no_effects();
        }
        one_effect(Effect::CopyComments(format_comments(&self.comments)))
    }

    /// How putting the comments on the clipboard ended: a failure keeps them.
    pub fn comments_copy_ended(&mut self, ok: bool, now: u64)
        ensures
            final(self)@ == copy_ended(old(self)@, ok, now),
    {
        let n = self.comments.len();
        assert(self@.comments.len() == n);
        if ok {
            self.comments = Vec::new();
            assert(saved_view(self.comments@) =~= Seq::empty());
            self.comment_hover = None;
            self.set_notice(counted("Copied ", n), now);
        } else {
            let d = text_of(&digits_of(n));
            self.set_notice(cat("Copy failed; kept ", d.as_str()), now);
        }
    }

    /// Asks for the agents that comments can be sent to.
    pub fn choose_agent(&mut self, now: u64) -> (r: Vec<Effect>)
        ensures
            (final(self)@, effects(r@)) == agent_wanted(old(self)@, now),
    {
        if self.comments.len() == 0 {
            self.set_notice("No comments to send".to_string(), now);
            return no_effects();
        }
        match copy_opt(&self.owner) {
            Some(owner) => one_effect(Effect::ListAgents(owner)),
            None => {
                self.set_notice("Sidebar unavailable".to_string(), now);
                no_effects()
            },
        }
    }

    /// Goes on with the agents that were found; `None` where they could not be
    /// listed.
    pub fn agents_listed(&mut self, found: Option<Vec<AgentTarget>>, now: u64) -> (r: Vec<Effect>)
        ensures
            (final(self)@, effects(r@)) == agents_found(
                old(self)@,
                match found {
                    Some(v) => Some(agents_view(v@)),
                    None => None,
                },
                now,
            ),
    {
        let agents = match found {
            Some(v) => v,
            None => {
                self.set_notice("Agent list failed".to_string(), now);
                return no_effects();
            },
        };
        assert(agents_view(agents@).len() == agents@.len());
        if agents.len() == 0 {
            self.set_notice("No agents in this tab".to_string(), now);
            return no_effects();
        }
        if agents.len() == 1 {
            return self.send_comments(&agents[0]);
        }
        self.agent_picker = Some(
            AgentPicker { agents, selected: 0, scroll: 0, rect: Rect::default() },
        );
        no_effects()
    }

    /// Asks for the comments to be sent to an agent.
    pub fn send_comments(&self, agent: &AgentTarget) -> (r: Vec<Effect>)
        ensures
            effects(r@) == seq![sent_to(self@, agent@)],
    {
        let text = format_comments(&self.comments);
        let pasted = bracketed_paste(text.as_str());
        one_effect(Effect::SendComments(agent.pane_id.as_str().to_string(), pasted))
    }

    /// How sending the comments ended.
    pub fn comments_send_ended(&mut self, pane_id: &str, ok: bool, now: u64) -> (r: Vec<Effect>)
        requires
            sound(old(self)@),
        ensures
            (final(self)@, effects(r@)) == send_ended(old(self)@, pane_id@, ok, now),
            sound(final(self)@),
    {
        let n = self.comments.len();
        assert(self@.comments.len() == n);
        self.agent_picker = None;
        if !ok {
            let d = text_of(&digits_of(n));
            self.set_notice(cat("Send failed; kept ", d.as_str()), now);
            return no_effects();
        }
        self.comments = Vec::new();
        assert(saved_view(self.comments@) =~= Seq::empty());
        let mut e = self.close();
        push_effect(&mut e, Effect::Focus(pane_id.to_string()));
        e
    }

    // ---- Opening and closing ----

    /// Closes the viewer.
    pub fn close(&mut self) -> (r: Vec<Effect>)
        ensures
            (final(self)@, effects(r@)) == closed(old(self)@),
            sound(old(self)@) ==> sound(final(self)@),
    {
        if self.doc.is_none() {
            return no_effects();
        }
        let mut e = self.cancel_comment();
        let ghost first = effects(e@);
        self.agent_picker = None;
        self.footer_actions = Vec::new();
        self.footer_hover = None;
        self.comment_hover = None;
        self.current = None;
        self.doc = None;
        self.dragging_selection = false;
        self.selection_dragged = false;
        self.expanded_folds = Vec::new();
        let ghost control = self@.control;
        let ghost owner = self@.owner;
        let ghost focus = self@.restore_focus;
        if let Some(c) = &self.control {
            push_effect(&mut e, Effect::RemoveControl(c.as_str().to_string()));
        }
        assert(effects(e@) =~= first + opt_effect(
            control,
            |c: Seq<char>| EffectView::RemoveControl(c),
        ));
        let ghost second = effects(e@);
        if let Some(o) = &self.owner {
            push_effect(&mut e, Effect::ZoomOff(o.as_str().to_string()));
        }
        assert(effects(e@) =~= second + opt_effect(
            owner,
            |o: Seq<char>| EffectView::ZoomOff(o),
        ));
        let ghost third = effects(e@);
        if let Some(f) = self.restore_focus.take() {
            push_effect(&mut e, Effect::Focus(f));
        }
        assert(effects(e@) =~= third + opt_effect(focus, |f: Seq<char>| EffectView::Focus(f)));
        assert(self@ =~= closed(old(self)@).0);
        e
    }

    /// Nothing is under the mouse any more.
    pub fn clear_mouse_hover(&mut self)
        ensures
            final(self)@ == (PreviewView { footer_hover: None, comment_hover: None, ..old(self)@ }),
    {
        self.footer_hover = None;
        self.comment_hover = None;
    }

    /// Remembers the pane that has the focus, while nothing is shown: it gets the
    /// focus back when the viewer is closed.
    pub fn observe_mouse(&mut self, peers: &Vec<PeerPane>)
        ensures
            final(self)@ == observed(old(self)@, peers_view(peers@)),
    {
        if self.doc.is_some() {
            return;
        }
        let peer = match &self.owner {
            Some(owner) => focused_peer_in_tab(peers, owner.as_str()),
            None => None,
        };
        if peer.is_some() {
            self.restore_focus = peer;
        }
    }

    /// The sidebar itself was used: it keeps the focus.
    pub fn claim_focus(&mut self)
        ensures
            final(self)@ == (if old(self)@.doc is None {
                PreviewView { restore_focus: None, ..old(self)@ }
            } else {
                old(self)@
            }),
    {
        if self.doc.is_none() {
            self.restore_focus = None;
        }
    }

    /// Another pane got the focus.
    pub fn on_focus_lost(&mut self, peers: &Vec<PeerPane>)
        ensures
            final(self)@ == observed(
                PreviewView { dragging_selection: false, selection_dragged: false, ..old(self)@ },
                peers_view(peers@),
            ),
    {
        self.dragging_selection = false;
        self.selection_dragged = false;
        self.observe_mouse(peers);
    }

    /// Follows what the control file says.
    pub fn sync(
        &mut self,
        read: Option<(u16, Request)>,
        diff_theme: usize,
        hide_unmodified: bool,
    ) -> (r: Vec<Effect>)
        requires
            sound(old(self)@),
        ensures
            (final(self)@, effects(r@)) == synced(
                old(self)@,
                match read {
                    Some((width, request)) => Some((width, request@)),
                    None => None,
                },
                diff_theme,
                hide_unmodified,
            ),
            sound(final(self)@),
    {
        if self.control.is_none() {
            return no_effects();
        }
        let (width, request) = match read {
            Some(read) => read,
            None => {
                if self.current.is_none() {
                    return no_effects();
                }
                let e = self.cancel_comment();
                self.agent_picker = None;
                self.current = None;
                self.doc = None;
                self.expanded_folds = Vec::new();
                return e;
            },
        };
        let shown_already = match &self.current {
            Some(current) => same_request(current, &request),
            None => false,
        };
        if shown_already {
            return no_effects();
        }
        let mut e = self.cancel_comment();
        self.agent_picker = None;
        self.sidebar_width = if width < 1 {
            1
        } else {
            width
        };
        self.diff_theme = diff_theme;
        self.hide_unmodified = hide_unmodified;
        self.expanded_folds = Vec::new();
        push_effect(&mut e, Effect::Load(request));
        e
    }

    /// Shows what was loaded for a new request.
    pub fn show(&mut self, request: Request, doc: Doc, now: u64)
        requires
            sound(old(self)@),
            sound_doc(doc@),
        ensures
            final(self)@ == shown(old(self)@, request@, doc@, now),
            sound(final(self)@),
    {
        let mut doc = doc;
        prepare_new_request(&mut doc, &request, self.hide_unmodified, now);
        self.doc = Some(doc);
        self.current = Some(request);
        self.dragging_selection = false;
        self.selection_dragged = false;
        self.last_refresh = now;
    }

    fn kept_scroll(&self) -> (r: usize)
        ensures
            r == scroll_of(self@),
    {
        match &self.doc {
            Some(d) => d.scroll,
            None => 0,
        }
    }

    /// Shows the current document as it was loaded anew.
    pub fn reload_current(&mut self, doc: Doc, center_first_change: bool, now: u64)
        requires
            sound(old(self)@),
            sound_doc(doc@),
        ensures
            final(self)@ == reloaded(old(self)@, doc@, center_first_change, now),
            sound(final(self)@),
    {
        if self.current.is_none() {
            return;
        }
        let keep = self.kept_scroll();
        let mut doc = doc;
        if center_first_change {
            doc.request_first_change_center();
        } else {
            doc.scroll = keep;
        }
        self.doc = Some(doc);
        self.last_refresh = now;
    }

    /// Shows the current document as it was loaded anew, and keeps what is on the
    /// screen in place.
    pub fn reload_current_preserving_view(&mut self, doc: Doc, now: u64)
        requires
            sound(old(self)@),
            sound_doc(doc@),
        ensures
            final(self)@ == reloaded_in_place(old(self)@, doc@, now),
            sound(final(self)@),
    {
        if self.current.is_none() {
            return;
        }
        let keep = self.kept_scroll();
        let anchor = match self.doc.take() {
            Some(mut d) => d.view_anchor(self.body.width, self.body.height),
            None => None,
        };
        let mut doc = doc;
        let placed = match &anchor {
            Some(a) => doc.restore_view_anchor(a, self.body.width),
            None => false,
        };
        if !placed {
            doc.scroll = keep;
        }
        self.doc = Some(doc);
        self.last_refresh = now;
    }
}

/// A key as it does to a document that it scrolls.
pub fn scroll_key(doc: &mut Doc, code: KeyCode, page: usize)
    ensures
        final(doc)@ == (DocView { scroll: key_scroll(old(doc)@, code, page), ..old(doc)@ }),
{
    let count = doc.visual_len();
    let max = if count == 0 {
        0
    } else {
        count - 1
    };
    match code {
        KeyCode::Up | KeyCode::Char('k') => doc.scroll = up_by(doc.scroll, 1),
        KeyCode::Down | KeyCode::Char('j') => doc.scroll = down_by(doc.scroll, 1, max),
        KeyCode::PageUp => doc.scroll = up_by(doc.scroll, page),
        KeyCode::PageDown => doc.scroll = down_by(doc.scroll, page, max),
        KeyCode::Home | KeyCode::Char('g') => doc.scroll = 0,
        KeyCode::End | KeyCode::Char('G') => doc.scroll = max,
        _ => {},
    }
}

/// Where the mouse wheel scrolls a document to.
pub open spec fn wheel_scroll(d: DocView, kind: MouseKind) -> int {
    match kind {
        MouseKind::ScrollUp => monus(d.scroll, 3),
        MouseKind::ScrollDown => least(d.scroll + 3, monus(visual_count(d), 1)),
        _ => d.scroll,
    }
}

/// The mouse wheel scrolls by three rows.
pub fn scroll_wheel(doc: &mut Doc, kind: MouseKind)
    ensures
        final(doc)@ == (DocView { scroll: wheel_scroll(old(doc)@, kind), ..old(doc)@ }),
{
    let count = doc.visual_len();
    let max = if count == 0 {
        0
    } else {
        count - 1
    };
    match kind {
        MouseKind::ScrollUp => doc.scroll = up_by(doc.scroll, 3),
        MouseKind::ScrollDown => doc.scroll = down_by(doc.scroll, 3, max),
        _ => {},
    }
}

fn type_in(draft: &mut CommentDraft, key: Key)
    requires
        old(draft).placed(),
    ensures
        final(draft)@ == draft_typed(old(draft)@, key),
        final(draft).placed(),
{
    let m = key.modifiers;
    let command = m.control && !m.alt;
    proof {
        lemma_draft_stays_placed(draft@, key);
    }
    match key.code {
        KeyCode::Enter => draft.insert("\n"),
        KeyCode::Backspace => draft.backspace(),
        KeyCode::Delete => draft.delete(),
        KeyCode::Left => draft.move_left(),
        KeyCode::Right => draft.move_right(),
        KeyCode::Up => draft.move_vertical(false),
        KeyCode::Down => draft.move_vertical(true),
        KeyCode::Home => draft.to_line_start(),
        KeyCode::End => draft.to_line_end(),
        KeyCode::Char(c) => {
            if c == 'j' && command {
                draft.insert("\n");
            } else if c == 'a' && command {
                draft.to_text_end(false);
            } else if c == 'e' && command {
                draft.to_text_end(true);
            } else if !m.command && (!m.control || m.alt) {
                let mut one: Vec<char> = Vec::new();
                one.push(c);
                let text = text_of(&one);
                assert(text@ =~= seq![c]);
                draft.insert(text.as_str());
            }
        },
        _ => {},
    }
}

proof fn lemma_draft_stays_placed(d: DraftView, key: Key)
    requires
        d.at is Some,
    ensures
        draft_typed(d, key).at is Some,
{
}

/// Where the mouse is in the document, and what it hits there.
fn hit_under(doc: &Doc, body: Rect, mouse: &Mouse) -> (r: Option<HitPoint>)
    ensures
        r == (match doc_row(body, doc@.scroll, *mouse) {
            None => None,
            Some(row) => hit_at(doc@, row as int, monus(mouse.column as int, body.x as int)),
        }),
{
    match doc_row_at(body, doc.scroll, mouse) {
        None => None,
        Some(row) => {
            let column = if mouse.column > body.x {
                (mouse.column - body.x) as usize
            } else {
                0
            };
            doc.hit_point(row, column)
        },
    }
}

/// What is hit stands in a row of the document.
proof fn lemma_hits_have_rows(d: DocView, visual: int, column: int)
    ensures
        hit_at(d, visual, column) matches Some(h) ==> h.before.row < d.sources.len()
            && h.after.row < d.sources.len(),
{
}

/// Extends the selection to what stands in this row under the mouse.
fn drag_to(doc: &mut Doc, body: Rect, mouse: &Mouse, row: Option<usize>)
    requires
        sound_doc(old(doc)@),
    ensures
        final(doc)@ == drag_in_row(
            old(doc)@,
            body,
            *mouse,
            match row {
                Some(row) => Some(row as int),
                None => None,
            },
        ),
        sound_doc(final(doc)@),
{
    if let Some(row) = row {
        let column = if mouse.column > body.x {
            (mouse.column - body.x) as usize
        } else {
            0
        };
        let hit = doc.hit_point(row, column);
        proof {
            lemma_hits_have_rows(doc@, row as int, column as int);
            assert(doc@.sources.len() == doc.sources@.len());
        }
        if let Some(hit) = hit {
            doc.drag_selection(hit);
        }
    }
}

/// Scrolls where a drag left the document, and says which row it is in.
fn drag_over(doc: &mut Doc, body: Rect, mouse: &Mouse) -> (r: Option<usize>)
    ensures
        (final(doc)@, match r {
            Some(row) => Some(row as int),
            None => None,
        }) == drag_row(old(doc)@, body, *mouse),
{
    let count = doc.visual_len();
    let max = if count == 0 {
        0
    } else {
        count - 1
    };
    let row = doc_row_at(body, doc.scroll, mouse);
    if row.is_some() {
        return row;
    }
    let right = body.x as u32 + body.width as u32;
    let bottom = body.y as u32 + body.height as u32;
    let right = if right > 65535 {
        65535
    } else {
        right
    };
    let bottom = if bottom > 65535 {
        65535
    } else {
        bottom
    };
    let columns = body.x <= mouse.column && (mouse.column as u32) < right;
    if columns && mouse.row < body.y {
        doc.scroll = up_by(doc.scroll, 1);
        Some(doc.scroll)
    } else if columns && mouse.row as u32 >= bottom {
        doc.scroll = down_by(doc.scroll, 1, max);
        let rest = if body.height > 0 {
            (body.height - 1) as usize
        } else {
            0
        };
        Some(down_by(doc.scroll, rest, max))
    } else {
        None
    }
}

impl InlinePreview {
    // ---- Keys ----

    /// A key while a comment is written.
    pub fn on_draft_key(&mut self, key: Key, now: u64) -> (r: Vec<Effect>)
        requires
            sound(old(self)@),
        ensures
            (final(self)@, effects(r@)) == draft_key_step(old(self)@, key, now),
            sound(final(self)@),
    {
        if key.code == KeyCode::Esc {
            return self.cancel_comment();
        }
        if key.code == KeyCode::Enter && !key.modifiers.shift && !key.modifiers.alt {
            return self.save_comment(now);
        }
        if let Some(mut d) = self.draft.take() {
            type_in(&mut d, key);
            self.draft = Some(d);
        }
        no_effects()
    }

    /// A key while an agent is chosen.
    pub fn on_agent_picker_key(&mut self, key: Key) -> (r: Vec<Effect>)
        ensures
            (final(self)@, effects(r@)) == picker_key_step(old(self)@, key),
    {
        if key.code == KeyCode::Esc {
            self.agent_picker = None;
            return no_effects();
        }
        let chosen = match &self.agent_picker {
            None => {
                return no_effects();
            },
            Some(picker) => match key.code {
                KeyCode::Enter => Some(picker.selected),
                KeyCode::Char(c) => if '1' <= c && c <= '9' {
                    Some((c as u32 - 49) as usize)
                } else {
                    None
                },
                _ => None,
            },
        };
        if let Some(i) = chosen {
            return self.send_to_picked(i);
        }
        if let Some(mut picker) = self.agent_picker.take() {
            let total = picker.agents.len();
            assert(picker@.agents.len() == total);
            let max = if total == 0 {
                0
            } else {
                total - 1
            };
            match key.code {
                KeyCode::Up | KeyCode::Char('k') => picker.selected = up_by(picker.selected, 1),
                KeyCode::Down | KeyCode::Char('j') => {
                    picker.selected = down_by(picker.selected, 1, max);
                },
                KeyCode::Home | KeyCode::Char('g') => picker.selected = 0,
                KeyCode::End | KeyCode::Char('G') => picker.selected = max,
                _ => {},
            }
            self.agent_picker = Some(picker);
        }
        no_effects()
    }

    fn send_to_picked(&self, i: usize) -> (r: Vec<Effect>)
        requires
            self@.agent_picker is Some,
        ensures
            effects(r@) == ({
                let agents = self@.agent_picker->0.agents;
                if i < agents.len() {
                    seq![sent_to(self@, agents[i as int])]
                } else {
                    Seq::empty()
                }
            }),
    {
        if let Some(picker) = &self.agent_picker {
            assert(picker@.agents.len() == picker.agents@.len());
            if i < picker.agents.len() {
                return self.send_comments(&picker.agents[i]);
            }
        }
        no_effects()
    }

    /// Text is pasted into a comment.
    pub fn on_paste(&mut self, text: &str)
        requires
            sound(old(self)@),
        ensures
            final(self)@ == (match old(self)@.draft {
                Some(d) => PreviewView { draft: Some(inserted(d, text@)), ..old(self)@ },
                None => old(self)@,
            }),
            sound(final(self)@),
    {
        if let Some(mut d) = self.draft.take() {
            d.insert(text);
            self.draft = Some(d);
        }
    }

    fn has_selection(&self) -> (r: bool)
        ensures
            r == (self@.doc matches Some(d) && selected(d) is Some),
    {
        match &self.doc {
            Some(d) => d.selected_range().is_some(),
            None => false,
        }
    }

    /// A key goes down, or repeats.
    pub fn on_key(&mut self, key: Key, repeat: bool, cwd: Option<&str>, now: u64) -> (r: Vec<Effect>)
        requires
            sound(old(self)@),
        ensures
            (final(self)@, effects(r@)) == key_step(old(self)@, key, repeat, opt_str(cwd), now),
            sound(final(self)@),
    {
        if self.draft.is_some() && (key.press || repeat) {
            return self.on_draft_key(key, now);
        }
        if !key.press {
            return no_effects();
        }
        if self.agent_picker.is_some() {
            return self.on_agent_picker_key(key);
        }
        if is_copy_shortcut(&key, self.platform) {
            return self.copy_selection(now);
        }
        let plain = key.modifiers.none();
        if key.code == KeyCode::Char('c') && plain {
            return self.start_comment(cwd, now);
        }
        if key.code == KeyCode::Char('y') && plain {
            return self.copy_comments(now);
        }
        if key.code == KeyCode::Char('s') && plain {
            return self.choose_agent(now);
        }
        if key.code == KeyCode::Char('d') && plain {
            self.clear_current_file_comments(now);
            return no_effects();
        }
        if key.code == KeyCode::Esc && self.has_selection() {
            self.drop_selection();
            return no_effects();
        }
        if key.code == KeyCode::Esc || key.code == KeyCode::Char('q') {
            return self.close();
        }
        if let Some(mut d) = self.doc.take() {
            scroll_key(&mut d, key.code, 20);
            self.doc = Some(d);
        }
        no_effects()
    }

    // ---- The mouse ----

    /// Whether the mouse is over the viewer.
    pub fn owns_mouse(&self, mouse: &Mouse) -> (r: bool)
        ensures
            r == (self@.doc is Some && self@.area.x <= mouse.column < self@.area.x
                + self@.area.width && self@.area.y <= mouse.row < self@.area.y
                + self@.area.height),
    {
        let right = self.area.x as u32 + self.area.width as u32;
        let bottom = self.area.y as u32 + self.area.height as u32;
        self.doc.is_some() && mouse.column >= self.area.x && (mouse.column as u32) < right
            && mouse.row >= self.area.y && (mouse.row as u32) < bottom
    }

    fn hit(&self, mouse: &Mouse) -> (r: Option<HitPoint>)
        ensures
            r == mouse_hit(self@, *mouse),
    {
        match &self.doc {
            Some(d) => hit_under(d, self.body, mouse),
            None => None,
        }
    }

    /// The comment under the mouse.
    pub fn comment_at(&self, mouse: &Mouse) -> (r: Option<usize>)
        ensures
            r == comment_under(self@, *mouse),
    {
        let hit = match self.hit(mouse) {
            Some(hit) => hit,
            None => {
                return None;
            },
        };
        let current = match &self.current {
            Some(current) => current,
            None => {
                return None;
            },
        };
        let ghost all = self@.comments;
        let mut n = self.comments.len();
        while n > 0
            invariant
                n <= self.comments@.len(),
                all == saved_view(self.comments@),
                mouse_hit(self@, *mouse) == Some(hit),
                self@.current == Some(current@),
                comment_covering(all, current@, hit, self.comments@.len() as int)
                    == comment_covering(all, current@, hit, n as int),
            decreases n,
        {
            let c = &self.comments[n - 1];
            assert(all[n - 1] == c@);
            if same_request(&c.pending.document, current) && c.pending.range.contains_hit(hit) {
                return Some(n - 1);
            }
            n -= 1;
        }
        None
    }

    fn action_at(&self, mouse: &Mouse) -> (r: Option<FooterAction>)
        ensures
            r == action_under(self@.footer_actions, *mouse, 0),
    {
        let mut i: usize = 0;
        while i < self.footer_actions.len()
            invariant
                i <= self.footer_actions@.len(),
                action_under(self.footer_actions@, *mouse, 0) == action_under(
                    self.footer_actions@,
                    *mouse,
                    i as int,
                ),
            decreases self.footer_actions@.len() - i,
        {
            let (rect, action) = self.footer_actions[i];
            if hits(rect, mouse.column, mouse.row) {
                return Some(action);
            }
            i += 1;
        }
        None
    }

    fn note_hover(&mut self, mouse: &Mouse, linger: u64, now: u64)
        ensures
            final(self)@ == hovered(old(self)@, *mouse, linger, now),
    {
        if mouse.kind == MouseKind::Moved {
            self.comment_hover = match self.comment_at(mouse) {
                Some(index) => Some(
                    CommentHover {
                        index,
                        x: mouse.column,
                        y: mouse.row,
                        until: later(now, linger),
                    },
                ),
                None => None,
            };
        } else if mouse.kind == MouseKind::ScrollUp || mouse.kind == MouseKind::ScrollDown {
            self.comment_hover = None;
        }
        self.footer_hover = self.action_at(mouse);
    }

    fn do_action(&mut self, action: FooterAction, cwd: Option<&str>, now: u64) -> (r: Vec<Effect>)
        requires
            sound(old(self)@),
        ensures
            (final(self)@, effects(r@)) == action_step(old(self)@, action, opt_str(cwd), now),
            sound(final(self)@),
    {
        match action {
            FooterAction::Comment => self.start_comment(cwd, now),
            FooterAction::CopySelection => self.copy_selection(now),
            FooterAction::CopyComments => self.copy_comments(now),
            FooterAction::Send => self.choose_agent(now),
            FooterAction::ClearFileComments => {
                self.clear_current_file_comments(now);
                no_effects()
            },
        }
    }

    fn fold_at(&self, mouse: &Mouse) -> (r: Option<FoldId>)
        ensures
            r == fold_under(self@, *mouse),
    {
        match &self.doc {
            Some(d) => fold_of(d, self.body, mouse),
            None => None,
        }
    }

    /// A press in the document; whether it was one.
    fn press(&mut self, mouse: &Mouse) -> (r: Option<Vec<Effect>>)
        requires
            sound(old(self)@),
        ensures
            match r {
                Some(e) => press_step(old(self)@, *mouse) == Some((final(self)@, effects(e@))),
                None => press_step(old(self)@, *mouse) is None && final(self)@ == old(self)@,
            },
            sound(final(self)@),
    {
        if let Some(hit) = self.hit(mouse) {
            if let Some(mut d) = self.doc.take() {
                proof {
                    let row = doc_row(self.body, d@.scroll, *mouse);
                    lemma_hits_have_rows(
                        d@,
                        row->0 as int,
                        monus(mouse.column as int, self.body.x as int),
                    );
                }
                d.begin_selection(hit);
                self.doc = Some(d);
            }
            self.dragging_selection = true;
            self.selection_dragged = false;
            return Some(no_effects());
        }
        if let Some(fold) = self.fold_at(mouse) {
            if add_fold(&mut self.expanded_folds, fold) {
                return Some(one_effect(Effect::ReloadInPlace));
            }
            return Some(no_effects());
        }
        if hits(self.body, mouse.column, mouse.row) {
            self.drop_selection();
            self.dragging_selection = false;
            self.selection_dragged = false;
            return Some(no_effects());
        }
        None
    }

    fn motion(&mut self, doc: Doc, mouse: &Mouse)
        requires
            sound(old(self)@),
            sound_doc(doc@),
            old(self)@.doc is None,
        ensures
            final(self)@ == motion_step(
                PreviewView { doc: Some(doc@), ..old(self)@ },
                doc@,
                *mouse,
            ),
            sound(final(self)@),
    {
        let mut doc = doc;
        match mouse.kind {
            MouseKind::LeftDrag => {
                if self.dragging_selection {
                    self.selection_dragged = true;
                    let row = drag_over(&mut doc, self.body, mouse);
                    drag_to(&mut doc, self.body, mouse, row);
                }
            },
            MouseKind::LeftUp => {
                if self.dragging_selection {
                    let row = doc_row_at(self.body, doc.scroll, mouse);
                    if self.selection_dragged && row.is_some() {
                        drag_to(&mut doc, self.body, mouse, row);
                    } else {
                        doc.clear_selection();
                    }
                    self.dragging_selection = false;
                    self.selection_dragged = false;
                }
            },
            MouseKind::ScrollUp | MouseKind::ScrollDown => {
                self.dragging_selection = false;
                self.selection_dragged = false;
                scroll_wheel(&mut doc, mouse.kind);
            },
            _ => {},
        }
        self.doc = Some(doc);
    }

    fn on_picker_mouse(&mut self, mouse: &Mouse, picked: Option<usize>) -> (r: Vec<Effect>)
        requires
            old(self)@.agent_picker is Some,
        ensures
            (final(self)@, effects(r@)) == picker_mouse_step(old(self)@, *mouse, picked),
    {
        self.comment_hover = None;
        if mouse.kind != MouseKind::LeftDown {
            return no_effects();
        }
        let index = match picked {
            Some(index) => index,
            None => {
                return no_effects();
            },
        };
        if let Some(mut picker) = self.agent_picker.take() {
            let same = picker.selected == index;
            if !same {
                picker.selected = index;
            }
            self.agent_picker = Some(picker);
            if same {
                return self.send_to_picked(index);
            }
        }
        no_effects()
    }

    /// A mouse event. `picked` is the agent under the mouse while one is chosen, and
    /// `linger` is how long a comment's note stays.
    pub fn on_mouse(
        &mut self,
        mouse: Mouse,
        picked: Option<usize>,
        cwd: Option<&str>,
        linger: u64,
        now: u64,
    ) -> (r: Vec<Effect>)
        requires
            sound(old(self)@),
        ensures
            (final(self)@, effects(r@)) == mouse_step(
                old(self)@,
                mouse,
                picked,
                opt_str(cwd),
                linger,
                now,
            ),
            sound(final(self)@),
    {
        let press = mouse.kind == MouseKind::LeftDown;
        if press && mouse.row == self.area.y && (mouse.column as u32) < self.area.x as u32 + 5 {
            return self.close();
        }
        if self.draft.is_some() {
            self.comment_hover = None;
            return no_effects();
        }
        if self.agent_picker.is_some() {
            return self.on_picker_mouse(&mouse, picked);
        }
        self.note_hover(&mouse, linger, now);
        if press {
            if let Some(action) = self.footer_hover {
                return self.do_action(action, cwd, now);
            }
            let pressed = self.press(&mouse);
            if let Some(e) = pressed {
                return e;
            }
        }
        if let Some(d) = self.doc.take() {
            self.motion(d, &mouse);
        }
        no_effects()
    }

    // ---- Time and drawing ----

    /// Time passes. The settings are as they were read just now.
    pub fn tick(&mut self, diff_theme: usize, hide_unmodified: bool, now: u64) -> (r: Vec<Effect>)
        requires
            sound(old(self)@),
        ensures
            (final(self)@, effects(r@)) == ticked(old(self)@, diff_theme, hide_unmodified, now),
            sound(final(self)@),
    {
        let over = match &self.notice {
            Some((_, until)) => now >= *until,
            None => false,
        };
        if over {
            self.notice = None;
        }
        assert(self@.comments.len() == self.comments@.len());
        if self.draft.is_some() || self.agent_picker.is_some() || self.comments.len() > 0
            || self.has_selection() {
            return no_effects();
        }
        let folds_changed = hide_unmodified != self.hide_unmodified;
        if diff_theme != self.diff_theme || folds_changed {
            self.diff_theme = diff_theme;
            self.hide_unmodified = hide_unmodified;
            if folds_changed {
                self.expanded_folds = Vec::new();
                assert(self@.expanded_folds =~= Seq::empty());
            }
            if self.current.is_some() {
                self.last_refresh = now;
                return one_effect(Effect::Reload { center: folds_changed && !hide_unmodified });
            }
        }
        if now < self.last_refresh || now - self.last_refresh < REFRESH {
            return no_effects();
        }
        self.last_refresh = now;
        match &self.current {
            Some(Request::Diff { .. }) => one_effect(Effect::Reload { center: false }),
            _ => no_effects(),
        }
    }

    /// The areas of the sidebar and of the viewer beside it, where it is open.
    pub fn areas(&self, area: Rect) -> (r: Option<(Rect, Rect)>)
        requires
            area.x + area.width <= u16::MAX,
        ensures
            r == (if self@.doc is Some {
                Some(split_area(self@.sidebar_width, area))
            } else {
                None
            }),
    {
        if self.doc.is_none() {
            return None;
        }
        let w = area.width;
        let rest = if w > 1 {
            w - 1
        } else {
            0
        };
        let kept = if MIN_PREVIEW_WIDTH < rest {
            MIN_PREVIEW_WIDTH
        } else {
            rest
        };
        let min = if kept < 1 {
            1
        } else {
            kept
        };
        let room = if w > min {
            w - min
        } else {
            0
        };
        let wanted = if self.sidebar_width < room {
            self.sidebar_width
        } else {
            room
        };
        let side = if wanted < 1 {
            1
        } else {
            wanted
        };
        let side = if side < w {
            side
        } else {
            w
        };
        Some(
            (
                Rect { x: area.x, y: area.y, width: side, height: area.height },
                Rect { x: area.x + side, y: area.y, width: w - side, height: area.height },
            ),
        )
    }
}

/// The fold under the mouse.
pub fn fold_of(doc: &Doc, body: Rect, mouse: &Mouse) -> (r: Option<FoldId>)
    ensures
        r == fold_in(doc@, body, *mouse),
{
    let visual = match doc_row_at(body, doc.scroll, mouse) {
        Some(visual) => visual,
        None => {
            return None;
        },
    };
    match doc.source_row_at(visual) {
        Some(row) => if row < doc.folds.len() {
            doc.folds[row]
        } else {
            None
        },
        None => None,
    }
}

/// Adds a fold to those that are open; whether it was new.
pub fn add_fold(open: &mut Vec<FoldId>, fold: FoldId) -> (r: bool)
    ensures
        r == !old(open)@.contains(fold),
        final(open)@ == (if r {
            old(open)@.push(fold)
        } else {
            old(open)@
        }),
{
    let mut i: usize = 0;
    while i < open.len()
        invariant
            i <= open@.len(),
            open@ == old(open)@,
            forall|k: int| 0 <= k < i ==> open@[k] != fold,
        decreases open@.len() - i,
    {
        if open[i] == fold {
            assert(open@.contains(fold));
            return false;
        }
        i += 1;
    }
    open.push(fold);
    true
}

// ---- Drawing ----

/// What is drawn over the document.
#[derive(Clone, Copy, Debug, PartialEq, Eq, Structural)]
pub enum Over {
    Nothing,
    Editor,
    Picker,
    /// The note of the comment with this index.
    Note(usize),
}

/// What the viewer shows besides its document.
pub struct Shown {
    pub notice: Option<String>,
    /// The footer, where there is no notice.
    pub footer: Vec<Span>,
    pub over: Over,
}

#[verifier::ext_equal]
pub struct ShownView {
    pub notice: Option<Seq<char>>,
    pub footer: Seq<SpanView>,
    pub over: Over,
}

impl View for Shown {
    type V = ShownView;

    open spec fn view(&self) -> ShownView {
        ShownView {
            notice: opt_text(self.notice),
            footer: spans_view(self.footer@),
            over: self.over,
        }
    }
}

pub open spec fn notice_at(p: PreviewView, now: u64) -> Option<Seq<char>> {
    match p.notice {
        Some((message, until)) if now < until => Some(message),
        _ => None,
    }
}

pub open spec fn footer_area(body: Rect) -> Rect {
    Rect { x: body.x, y: (body.y + body.height) as u16, width: body.width, height: 1 }
}

/// The footer of a viewer whose document is `d`.
pub open spec fn footer_now(p: PreviewView, d: DocView, body: Rect) -> FooterView {
    footer_of(
        p.platform,
        selected(d) is Some,
        p.comments.len() > 0,
        match p.current {
            Some(current) => count_for(p.comments, current),
            None => 0,
        },
        footer_area(body),
        p.footer_hover,
    )
}

pub open spec fn over_at(p: PreviewView, now: u64) -> Over {
    if p.draft is Some {
        Over::Editor
    } else if p.agent_picker is Some {
        Over::Picker
    } else {
        match p.comment_hover {
            Some(h) => if now < h.until && h.index < p.comments.len() && p.current is Some && alike(
                p.current->0,
                p.comments[h.index as int].pending.document,
            ) {
                Over::Note(h.index)
            } else {
                Over::Nothing
            },
            None => Over::Nothing,
        }
    }
}

/// What drawing in an area does, the document being drawn in `body`.
pub open spec fn drawn(p: PreviewView, area: Rect, body: Rect, now: u64) -> (
    PreviewView,
    Option<ShownView>,
) {
    match p.doc {
        None => (p, None),
        Some(d) => {
            let next = prepared(d, body.width, body.height);
            let notice = notice_at(p, now);
            let f = footer_now(p, next, body);
            (
                PreviewView {
                    area,
                    body,
                    doc: Some(next),
                    footer_actions: if notice is Some {
                        Seq::empty()
                    } else {
                        f.actions
                    },
                    ..p
                },
                Some(
                    ShownView {
                        notice,
                        footer: if notice is Some {
                            Seq::empty()
                        } else {
                            f.spans
                        },
                        over: over_at(p, now),
                    },
                ),
            )
        },
    }
}

/// The ranges of the comments on a document, in order, among the first `n`.
pub open spec fn ranges_on(comments: Seq<SavedView>, current: RequestView, n: int) -> Seq<
    TextSelection,
>
    decreases n,
{
    if n <= 0 {
        Seq::empty()
    } else {
        let rest = ranges_on(comments, current, n - 1);
        if alike(comments[n - 1].pending.document, current) {
            rest.push(comments[n - 1].pending.range)
        } else {
            rest
        }
    }
}

impl InlinePreview {
    /// The ranges of the comments on what is shown.
    pub fn comment_ranges(&self) -> (r: Vec<TextSelection>)
        ensures
            r@ == (match self@.current {
                Some(current) => ranges_on(
                    self@.comments,
                    current,
                    self@.comments.len() as int,
                ),
                None => Seq::empty(),
            }),
    {
        let mut out: Vec<TextSelection> = Vec::new();
        let current = match &self.current {
            Some(current) => current,
            None => {
                return out;
            },
        };
        let ghost all = self@.comments;
        let mut i: usize = 0;
        while i < self.comments.len()
            invariant
                i <= self.comments@.len(),
                all == saved_view(self.comments@),
                out@ == ranges_on(all, current@, i as int),
            decreases self.comments@.len() - i,
        {
            let c = &self.comments[i];
            assert(all[i as int] == c@);
            if same_request(&c.pending.document, current) {
                out.push(c.pending.range);
            }
            i += 1;
        }
        assert(all.len() == self.comments@.len());
        out
    }

    fn over(&self, now: u64) -> (r: Over)
        ensures
            r == over_at(self@, now),
    {
        if self.draft.is_some() {
            return Over::Editor;
        }
        if self.agent_picker.is_some() {
            return Over::Picker;
        }
        let h = match self.comment_hover {
            Some(h) => h,
            None => {
                return Over::Nothing;
            },
        };
        assert(self@.comments.len() == self.comments@.len());
        if now < h.until && h.index < self.comments.len() {
            if let Some(current) = &self.current {
                if same_request(current, &self.comments[h.index].pending.document) {
                    return Over::Note(h.index);
                }
            }
        }
        Over::Nothing
    }

    /// Lays the viewer out in an area, with the document in `body`; says what to
    /// show besides the document, where one is shown.
    pub fn draw(&mut self, area: Rect, body: Rect, now: u64) -> (r: Option<Shown>)
        requires
            body.y + body.height <= u16::MAX,
            sound(old(self)@),
        ensures
            (final(self)@, match r {
                Some(s) => Some(s@),
                None => None,
            }) == drawn(old(self)@, area, body, now),
            sound(final(self)@),
    {
        let over = self.over(now);
        let count = self.current_comment_count();
        let mut doc = match self.doc.take() {
            Some(d) => d,
            None => {
                return None;
            },
        };
        self.area = area;
        self.body = body;
        doc.prepare(body.width, body.height);
        let selected_now = doc.selected_range().is_some();
        self.doc = Some(doc);
        let notice = match &self.notice {
            Some((message, until)) => if now < *until {
                Some(message.as_str().to_string())
            } else {
                None
            },
            None => None,
        };
        assert(self@.comments.len() == self.comments@.len());
        if notice.is_some() {
            self.footer_actions = Vec::new();
            let s = Shown { notice, footer: Vec::new(), over };
            assert(s@.footer =~= Seq::empty());
            return Some(s);
        }
        let at = Rect { x: body.x, y: body.y + body.height, width: body.width, height: 1 };
        let f = layout_footer(
            self.platform,
            selected_now,
            self.comments.len() > 0,
            count,
            at,
            self.footer_hover,
        );
        self.footer_actions = f.actions;
        Some(Shown { notice, footer: f.spans, over })
    }
}

// ---- Laws ----

/// Closing leaves nothing open: no document, no comment being written, no choice
/// of an agent and nothing under the mouse. Closing again does nothing.
pub proof fn law_closing_is_final(p: PreviewView)
    ensures
        ({
            let q = closed(p).0;
            &&& q.doc is None
            &&& p.doc is Some ==> q.current is None && q.draft is None && q.agent_picker is None
                && q.comment_hover is None && q.footer_hover is None && q.restore_focus is None
                && !q.dragging_selection
            &&& closed(q) == (q, Seq::<EffectView>::empty())
        }),
{
}

/// Closing keeps the comments.
pub proof fn law_closing_keeps_comments(p: PreviewView)
    ensures
        closed(p).0.comments == p.comments,
{
}

/// Comments go only once they have arrived: where handing them on fails, each is
/// kept, and where it succeeds, none is left.
pub proof fn law_comments_outlive_failures(p: PreviewView, pane: Seq<char>, ok: bool, now: u64)
    ensures
        copy_ended(p, ok, now).comments == (if ok {
            Seq::empty()
        } else {
            p.comments
        }),
        send_ended(p, pane, ok, now).0.comments == (if ok {
            Seq::empty()
        } else {
            p.comments
        }),
{
}

/// While comments, a draft, a choice of an agent or a selection are there, time
/// loads nothing anew and changes no setting.
pub proof fn law_work_is_not_disturbed(p: PreviewView, theme: usize, hide: bool, now: u64)
    requires
        busy(p),
    ensures
        ticked(p, theme, hide, now).1.len() == 0,
        ticked(p, theme, hide, now).0 == (PreviewView {
            notice: ticked(p, theme, hide, now).0.notice,
            ..p
        }),
{
}

/// A notice is gone after its time.
pub proof fn law_notices_end(p: PreviewView, message: Seq<char>, shown: u64, now: u64, theme: usize, hide: bool)
    requires
        shown + NOTICE_DURATION <= u64::MAX,
        now >= shown + NOTICE_DURATION,
    ensures
        ticked(noticed(p, message, shown), theme, hide, now).0.notice is None,
        notice_at(noticed(p, message, shown), now) is None,
{
}

} // verus!
