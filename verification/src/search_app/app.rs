//! The search view: its fields, its results, and how a search runs.

use vstd::prelude::*;

use crate::input::{least, no_rect, Rect};
use crate::matcher::{query_pattern, regex_error};
use crate::paths::{join_path, under_dir};
use crate::scan::{digits, digits_of, trim, trimmed, Class};
use crate::search_app::query::{
    rg_args, search_command, validate_pattern, FoundView, SearchState, StateView, UiMatch,
};
use crate::sidebar::{Exit, IconTheme, Settings};
use crate::text::{cat, cat3, chars_of, eq_text, opt_text, text_of, texts};
use crate::viewer::request::{payload, search_file_request, RequestView};

verus! {

/// How long after the last change of a field a search begins, in milliseconds.
pub const SEARCH_DEBOUNCE: u64 = 250;

/// The time between two signs that the pane is alive, in milliseconds.
pub const BEAT: u64 = 5000;

pub const DEFAULT_EXPANDED_WIDTH: u16 = 32;

/// Where the results were drawn last.
#[derive(Clone, Copy, PartialEq, Eq, Debug, Structural)]
pub struct BodyGeom {
    pub top: u16,
    pub height: u16,
    pub offset: usize,
}

pub open spec fn no_body() -> BodyGeom {
    BodyGeom { top: 0, height: 0, offset: 0 }
}

/// Where the view switcher was drawn last: its row, and the columns of each chip.
#[derive(Clone, Copy, PartialEq, Eq, Debug)]
pub struct ActivityZones {
    pub row: u16,
    pub explorer: (u16, u16),
    pub source_control: (u16, u16),
    pub search: (u16, u16),
}

pub open spec fn no_activity() -> ActivityZones {
    ActivityZones { row: u16::MAX, explorer: (0, 0), source_control: (0, 0), search: (0, 0) }
}

/// The buttons and fields, where they were drawn last.
#[derive(Clone, Copy, PartialEq, Eq, Debug, Structural)]
pub struct Zones {
    pub gear: Rect,
    pub redraw: Rect,
    pub search_button: Rect,
    pub clear_button: Rect,
    pub retry_button: Rect,
    pub field_query: Rect,
    pub field_include: Rect,
    pub field_exclude: Rect,
    pub filters_toggle: Rect,
}

pub open spec fn no_zones() -> Zones {
    Zones {
        gear: no_rect(),
        redraw: no_rect(),
        search_button: no_rect(),
        clear_button: no_rect(),
        retry_button: no_rect(),
        field_query: no_rect(),
        field_include: no_rect(),
        field_exclude: no_rect(),
        filters_toggle: no_rect(),
    }
}

#[derive(Clone, Copy, PartialEq, Eq, Debug, Structural)]
pub enum Focus {
    Query,
    Include,
    Exclude,
    Toggles,
    Results,
}

#[derive(Clone, Copy, PartialEq, Eq, Debug, Structural)]
pub enum ToggleKind {
    Regex,
    Case,
    WholeWord,
}

/// The toggles in their order.
pub open spec fn toggles() -> Seq<ToggleKind> {
    seq![ToggleKind::Case, ToggleKind::WholeWord, ToggleKind::Regex]
}

pub fn search_toggles() -> (r: Vec<ToggleKind>)
    ensures
        r@ == toggles(),
{
    let mut r: Vec<ToggleKind> = Vec::new();
    r.push(ToggleKind::Case);
    r.push(ToggleKind::WholeWord);
    r.push(ToggleKind::Regex);
    assert(r@ =~= toggles());
    r
}

/// The fields that narrow a search down.
#[derive(Clone, Copy, PartialEq, Eq, Debug, Structural)]
pub enum FilterField {
    Include,
    Exclude,
}

impl FilterField {
    pub fn focus(self) -> (r: Focus)
        ensures
            r == (match self {
                FilterField::Include => Focus::Include,
                FilterField::Exclude => Focus::Exclude,
            }),
    {
        match self {
            FilterField::Include => Focus::Include,
            FilterField::Exclude => Focus::Exclude,
        }
    }

    pub fn label(self) -> (r: &'static str)
        ensures
            r@ == (match self {
                FilterField::Include => "Include files"@,
                FilterField::Exclude => "Exclude files"@,
            }),
    {
        match self {
            FilterField::Include => "Include files",
            FilterField::Exclude => "Exclude files",
        }
    }

    pub fn placeholder(self) -> (r: &'static str)
        ensures
            r@ == (match self {
                FilterField::Include => "e.g. *.ts, src/**/include"@,
                FilterField::Exclude => "e.g. *.ts, src/**/exclude"@,
            }),
    {
        match self {
            FilterField::Include => "e.g. *.ts, src/**/include",
            FilterField::Exclude => "e.g. *.ts, src/**/exclude",
        }
    }
}

/// What is shown over the view.
#[derive(Clone, Copy, PartialEq, Eq, Debug, Structural)]
pub enum Overlay {
    Settings { selected: usize, rect: Rect },
    ThemePicker { selected: usize, scroll: usize, rect: Rect },
}

// ---- Results ----

/// A line in which something was found.
#[derive(Debug)]
pub struct SearchMatch {
    pub line_number: usize,
    pub line_text: String,
    pub submatches: Vec<(usize, usize)>,
}

#[verifier::ext_equal]
pub struct MatchView {
    pub line_number: usize,
    pub line_text: Seq<char>,
    pub submatches: Seq<(usize, usize)>,
}

impl View for SearchMatch {
    type V = MatchView;

    open spec fn view(&self) -> MatchView {
        MatchView {
            line_number: self.line_number,
            line_text: self.line_text@,
            submatches: self.submatches@,
        }
    }
}

pub open spec fn matches_view(v: Seq<SearchMatch>) -> Seq<MatchView> {
    v.map_values(|m: SearchMatch| m@)
}

/// What was found in a file.
#[derive(Debug)]
pub struct SearchGroup {
    pub path: String,
    pub matches: Vec<SearchMatch>,
}

#[verifier::ext_equal]
pub struct GroupView {
    pub path: Seq<char>,
    pub matches: Seq<MatchView>,
}

impl View for SearchGroup {
    type V = GroupView;

    open spec fn view(&self) -> GroupView {
        GroupView { path: self.path@, matches: matches_view(self.matches@) }
    }
}

pub open spec fn groups_view(v: Seq<SearchGroup>) -> Seq<GroupView> {
    v.map_values(|g: SearchGroup| g@)
}

#[derive(Clone, Copy, PartialEq, Eq, Debug, Structural)]
pub enum DisplayRow {
    Header(usize),
    Match { group: usize, item: usize },
}

impl DisplayRow {
    pub fn selectable(self) -> (r: bool)
        ensures
            r == (self is Match),
    {
        match self {
            DisplayRow::Match { .. } => true,
            DisplayRow::Header(_) => false,
        }
    }
}

/// What a running search reports.
pub enum SearchEvent {
    Match(UiMatch),
    Finished,
}

#[verifier::ext_equal]
pub enum EventView {
    Match(FoundView),
    Finished,
}

impl View for SearchEvent {
    type V = EventView;

    open spec fn view(&self) -> EventView {
        match *self {
            SearchEvent::Match(m) => EventView::Match(m@),
            SearchEvent::Finished => EventView::Finished,
        }
    }
}

pub open spec fn events_view(v: Seq<SearchEvent>) -> Seq<EventView> {
    v.map_values(|e: SearchEvent| e@)
}

/// What the view asks for.
pub enum Effect {
    SaveSettings,
    /// Name the pane anew.
    Identify,
    /// Stop the running search.
    Cancel,
    /// Call ripgrep with these arguments.
    Search(Vec<String>),
    /// Find out whether ripgrep is there.
    CheckRg,
    /// Close the sidebar's pane.
    Hide,
    /// Show this in the preview.
    Preview(String),
}

#[verifier::ext_equal]
pub enum EffectView {
    SaveSettings,
    Identify,
    Cancel,
    Search(Seq<Seq<char>>),
    CheckRg,
    Hide,
    Preview(Seq<char>),
}

impl View for Effect {
    type V = EffectView;

    open spec fn view(&self) -> EffectView {
        match *self {
            Effect::SaveSettings => EffectView::SaveSettings,
            Effect::Identify => EffectView::Identify,
            Effect::Cancel => EffectView::Cancel,
            Effect::Search(a) => EffectView::Search(texts(a@)),
            Effect::CheckRg => EffectView::CheckRg,
            Effect::Hide => EffectView::Hide,
            Effect::Preview(p) => EffectView::Preview(p@),
        }
    }
}

pub open spec fn effects(v: Seq<Effect>) -> Seq<EffectView> {
    v.map_values(|e: Effect| e@)
}

pub fn no_effects() -> (r: Vec<Effect>)
    ensures
        effects(r@) == Seq::<EffectView>::empty(),
{
    let r: Vec<Effect> = Vec::new();
    assert(effects(r@) =~= Seq::empty());
    r
}

pub fn push_effect(out: &mut Vec<Effect>, e: Effect)
    ensures
        effects(final(out)@) == effects(old(out)@).push(e@),
{
    let ghost before = effects(out@);
    out.push(e);
    assert(effects(out@) =~= before.push(e@));
}

pub fn one_effect(e: Effect) -> (r: Vec<Effect>)
    ensures
        effects(r@) == seq![e@],
{
    let mut r = no_effects();
    push_effect(&mut r, e);
    assert(effects(r@) =~= seq![e@]);
    r
}

/// The search view.
pub struct App {
    pub root: String,
    pub pane_id: Option<String>,
    pub settings: Settings,
    pub theme: IconTheme,
    pub last_width: u16,
    pub last_height: u16,
    pub page: usize,
    pub body: BodyGeom,
    pub activity: ActivityZones,
    pub zones: Zones,
    pub redraw_requested: bool,
    pub toggle_rects: Vec<(Rect, ToggleKind)>,
    pub focus: Focus,
    pub toggle_focus: usize,
    pub overlay: Option<Overlay>,
    pub query: String,
    pub included: String,
    pub excluded: String,
    pub regex: bool,
    pub case_sensitive: bool,
    pub whole_word: bool,
    pub filters_collapsed: bool,
    pub groups: Vec<SearchGroup>,
    pub rows: Vec<DisplayRow>,
    pub selected: Option<usize>,
    pub hovered: Option<usize>,
    pub scroll: usize,
    pub snap: bool,
    pub last_mouse: Option<u64>,
    pub mouse_pos: Option<(u16, u16)>,
    pub last_beat: u64,
    /// When a search is due, in milliseconds.
    pub pending_search: Option<u64>,
    /// Whether ripgrep runs.
    pub running: bool,
    pub searching: bool,
    pub summary: Option<String>,
    pub inline_error: Option<String>,
    pub notice: Option<String>,
    pub rg_error: Option<String>,
    pub pending_exit: Option<Exit>,
}

pub struct AppView {
    pub root: Seq<char>,
    pub pane_id: Option<Seq<char>>,
    pub settings: Settings,
    pub theme: IconTheme,
    pub last_width: u16,
    pub last_height: u16,
    pub page: usize,
    pub body: BodyGeom,
    pub activity: ActivityZones,
    pub zones: Zones,
    pub redraw_requested: bool,
    pub toggle_rects: Seq<(Rect, ToggleKind)>,
    pub focus: Focus,
    pub toggle_focus: usize,
    pub overlay: Option<Overlay>,
    pub query: Seq<char>,
    pub included: Seq<char>,
    pub excluded: Seq<char>,
    pub regex: bool,
    pub case_sensitive: bool,
    pub whole_word: bool,
    pub filters_collapsed: bool,
    pub groups: Seq<GroupView>,
    pub rows: Seq<DisplayRow>,
    pub selected: Option<usize>,
    pub hovered: Option<usize>,
    pub scroll: usize,
    pub snap: bool,
    pub last_mouse: Option<u64>,
    pub mouse_pos: Option<(u16, u16)>,
    pub last_beat: u64,
    pub pending_search: Option<u64>,
    pub running: bool,
    pub searching: bool,
    pub summary: Option<Seq<char>>,
    pub inline_error: Option<Seq<char>>,
    pub notice: Option<Seq<char>>,
    pub rg_error: Option<Seq<char>>,
    pub pending_exit: Option<Exit>,
}

impl View for App {
    type V = AppView;

    open spec fn view(&self) -> AppView {
        AppView {
            root: self.root@,
            pane_id: opt_text(self.pane_id),
            settings: self.settings,
            theme: self.theme,
            last_width: self.last_width,
            last_height: self.last_height,
            page: self.page,
            body: self.body,
            activity: self.activity,
            zones: self.zones,
            redraw_requested: self.redraw_requested,
            toggle_rects: self.toggle_rects@,
            focus: self.focus,
            toggle_focus: self.toggle_focus,
            overlay: self.overlay,
            query: self.query@,
            included: self.included@,
            excluded: self.excluded@,
            regex: self.regex,
            case_sensitive: self.case_sensitive,
            whole_word: self.whole_word,
            filters_collapsed: self.filters_collapsed,
            groups: groups_view(self.groups@),
            rows: self.rows@,
            selected: self.selected,
            hovered: self.hovered,
            scroll: self.scroll,
            snap: self.snap,
            last_mouse: self.last_mouse,
            mouse_pos: self.mouse_pos,
            last_beat: self.last_beat,
            pending_search: self.pending_search,
            running: self.running,
            searching: self.searching,
            summary: opt_text(self.summary),
            inline_error: opt_text(self.inline_error),
            notice: opt_text(self.notice),
            rg_error: opt_text(self.rg_error),
            pending_exit: self.pending_exit,
        }
    }
}

pub type Outcome = (AppView, Seq<EffectView>);

// ---- Starting ----

/// A view that has just started.
pub open spec fn fresh(
    root: Seq<char>,
    pane_id: Option<Seq<char>>,
    settings: Settings,
    theme: IconTheme,
    rg_error: Option<Seq<char>>,
    now: u64,
) -> AppView {
    AppView {
        root,
        pane_id,
        settings,
        theme,
        last_width: DEFAULT_EXPANDED_WIDTH,
        last_height: 24,
        page: 20,
        body: no_body(),
        activity: no_activity(),
        zones: no_zones(),
        redraw_requested: false,
        toggle_rects: Seq::empty(),
        focus: Focus::Query,
        toggle_focus: 0,
        overlay: None,
        query: Seq::empty(),
        included: Seq::empty(),
        excluded: Seq::empty(),
        regex: false,
        case_sensitive: false,
        whole_word: false,
        filters_collapsed: false,
        groups: Seq::empty(),
        rows: Seq::empty(),
        selected: None,
        hovered: None,
        scroll: 0,
        snap: false,
        last_mouse: None,
        mouse_pos: None,
        last_beat: now,
        pending_search: None,
        running: false,
        searching: false,
        summary: None,
        inline_error: None,
        notice: None,
        rg_error,
        pending_exit: None,
    }
}

fn empty_zones() -> (r: Zones)
    ensures
        r == no_zones(),
{
    Zones {
        gear: Rect::default(),
        redraw: Rect::default(),
        search_button: Rect::default(),
        clear_button: Rect::default(),
        retry_button: Rect::default(),
        field_query: Rect::default(),
        field_include: Rect::default(),
        field_exclude: Rect::default(),
        filters_toggle: Rect::default(),
    }
}

impl App {
    /// A view that starts in a folder. `rg_error` says why ripgrep cannot be used.
    pub fn new(
        root: String,
        pane_id: Option<String>,
        settings: Settings,
        theme: IconTheme,
        rg_error: Option<String>,
        now: u64,
    ) -> (r: App)
        ensures
            r@ == fresh(
                root@,
                opt_text(pane_id),
                settings,
                theme,
                opt_text(rg_error),
                now,
            ),
    {
        let r = App {
            root,
            pane_id,
            settings,
            theme,
            last_width: DEFAULT_EXPANDED_WIDTH,
            last_height: 24,
            page: 20,
            body: BodyGeom { top: 0, height: 0, offset: 0 },
            activity: ActivityZones {
                row: u16::MAX,
                explorer: (0, 0),
                source_control: (0, 0),
                search: (0, 0),
            },
            zones: empty_zones(),
            redraw_requested: false,
            toggle_rects: Vec::new(),
            focus: Focus::Query,
            toggle_focus: 0,
            overlay: None,
            query: String::new(),
            included: String::new(),
            excluded: String::new(),
            regex: false,
            case_sensitive: false,
            whole_word: false,
            filters_collapsed: false,
            groups: Vec::new(),
            rows: Vec::new(),
            selected: None,
            hovered: None,
            scroll: 0,
            snap: false,
            last_mouse: None,
            mouse_pos: None,
            last_beat: now,
            pending_search: None,
            running: false,
            searching: false,
            summary: None,
            inline_error: None,
            notice: None,
            rg_error,
            pending_exit: None,
        };
        assert(r@.toggle_rects =~= Seq::empty());
        assert(r@.groups =~= Seq::empty());
        assert(r@.rows =~= Seq::empty());
        assert(r@.query =~= Seq::empty());
        assert(r@.included =~= Seq::empty());
        assert(r@.excluded =~= Seq::empty());
        r
    }

    /// Whether it is time for a sign that the pane is alive.
    pub fn heartbeat(&mut self, now: u64) -> (r: bool)
        ensures
            now - old(self)@.last_beat < BEAT ==> final(self)@ == old(self)@ && !r,
            now - old(self)@.last_beat >= BEAT ==> final(self)@ == (AppView {
                last_beat: now,
                ..old(self)@
            }) && r == (old(self)@.pane_id is Some),
    {
        if now < self.last_beat || now - self.last_beat < BEAT {
            return false;
        }
        self.last_beat = now;
        self.pane_id.is_some()
    }

    /// Whether the views share a pane.
    pub fn merged(&self) -> (r: bool)
        ensures
            r == self@.settings.merged,
    {
        self.settings.merged
    }

    pub fn has_overlay(&self) -> (r: bool)
        ensures
            r == (self@.overlay is Some),
    {
        self.overlay.is_some()
    }

    pub fn root(&self) -> (r: String)
        ensures
            r@ == self@.root,
    {
        self.root.clone()
    }

    pub fn workspace_width(&self) -> (r: u16)
        ensures
            r == self@.last_width,
    {
        self.last_width
    }

    /// Whether the sidebars of the workspace follow each other.
    pub fn workspace_sync_enabled(&self) -> (r: bool)
        ensures
            r == self@.settings.merged,
    {
        self.settings.merged
    }

    /// How the pane is to be resized to be as wide as another sidebar: from and to
    /// how many columns.
    pub fn apply_workspace_width(&self, width: u16) -> (r: Option<(u16, u16)>)
        ensures
            r == (if width > 0 && width != self@.last_width && self@.pane_id is Some {
                Some((self@.last_width, width))
            } else {
                None
            }),
    {
        if width > 0 && width != self.last_width && self.pane_id.is_some() {
            Some((self.last_width, width))
        } else {
            None
        }
    }

    /// Whether everything is to be drawn anew; asked once.
    pub fn take_redraw_request(&mut self) -> (r: bool)
        ensures
            r == old(self)@.redraw_requested,
            final(self)@ == (AppView { redraw_requested: false, ..old(self)@ }),
    {
        let r = self.redraw_requested;
        self.redraw_requested = false;
        r
    }

    /// The name of the pane: what the views share, or this view's own.
    pub fn pane_label(&self, shared: &str) -> (r: String)
        ensures
            r@ == (if self@.settings.merged {
                shared@
            } else {
                "Search"@
            }),
    {
        if self.settings.merged {
            shared.to_string()
        } else {
            "Search".to_string()
        }
    }

    pub fn on_focus_lost(&mut self)
        ensures
            final(self)@ == (AppView { mouse_pos: None, hovered: None, ..old(self)@ }),
    {
        self.mouse_pos = None;
        self.hovered = None;
    }
}

// ---- Sharing ----

/// What the sidebars of a workspace share of the view.
pub open spec fn state_of(v: AppView) -> StateView {
    StateView {
        query: v.query,
        included: v.included,
        excluded: v.excluded,
        regex: v.regex,
        case_sensitive: v.case_sensitive,
        whole_word: v.whole_word,
    }
}

/// No results.
pub open spec fn cleared(v: AppView) -> AppView {
    AppView {
        groups: Seq::empty(),
        rows: Seq::empty(),
        selected: None,
        hovered: None,
        scroll: 0,
        snap: false,
        summary: None,
        ..v
    }
}

/// What another sidebar shares is taken over; results of another query are gone.
pub open spec fn state_applied(v: AppView, s: StateView) -> AppView {
    if state_of(v) == s {
        v
    } else {
        cleared(
            AppView {
                query: s.query,
                included: s.included,
                excluded: s.excluded,
                regex: s.regex,
                case_sensitive: s.case_sensitive,
                whole_word: s.whole_word,
                inline_error: None,
                ..v
            },
        )
    }
}

/// After another sidebar's query was taken over, the two share it.
pub proof fn law_shared_queries_agree(v: AppView, s: StateView)
    ensures
        state_of(state_applied(v, s)) == s,
        state_applied(state_applied(v, s), s) == state_applied(v, s),
{
}

impl App {
    pub fn workspace_state(&self) -> (r: SearchState)
        ensures
            r@ == state_of(self@),
    {
        SearchState {
            query: self.query.clone(),
            included: self.included.clone(),
            excluded: self.excluded.clone(),
            regex: self.regex,
            case_sensitive: self.case_sensitive,
            whole_word: self.whole_word,
        }
    }

    pub fn clear_results(&mut self)
        ensures
            final(self)@ == cleared(old(self)@),
    {
        self.groups = Vec::new();
        self.rows = Vec::new();
        self.selected = None;
        self.hovered = None;
        self.scroll = 0;
        self.snap = false;
        self.summary = None;
        assert(self@.groups =~= Seq::empty());
        assert(self@.rows =~= Seq::empty());
    }

    pub fn apply_workspace_state(&mut self, state: &SearchState)
        ensures
            final(self)@ == state_applied(old(self)@, state@),
    {
        let current = self.workspace_state();
        if current.same(state) {
            return;
        }
        self.query = state.query.clone();
        self.included = state.included.clone();
        self.excluded = state.excluded.clone();
        self.regex = state.regex;
        self.case_sensitive = state.case_sensitive;
        self.whole_word = state.whole_word;
        self.inline_error = None;
        self.clear_results();
    }
}

// ---- Searching ----

/// The running search is stopped.
pub open spec fn cancelled(v: AppView) -> Outcome {
    (
        AppView { running: false, searching: false, ..v },
        if v.running {
            seq![EffectView::Cancel]
        } else {
            Seq::empty()
        },
    )
}

/// A search begins for a query that is not empty, if it can be searched for.
pub open spec fn search_begun(v: AppView, query: Seq<char>, wrong: Option<Seq<char>>) -> Outcome {
    match wrong {
        Some(e) => (AppView { inline_error: Some(e), ..cleared(v) }, Seq::empty()),
        None => (
            AppView { searching: true, ..cleared(v) },
            seq![EffectView::Search(rg_args(state_of(v), query))],
        ),
    }
}

/// A search that runs or is due is stopped.
pub open spec fn search_stopped(v: AppView) -> Outcome {
    cancelled(AppView { pending_search: None, inline_error: None, ..v })
}

/// There is nothing to search for.
pub open spec fn empty_refused(v: AppView, manual: bool) -> AppView {
    AppView {
        inline_error: if manual {
            Some("Enter a search term"@)
        } else {
            None
        },
        ..cleared(v)
    }
}

/// A search is asked for: `manual` where it is by a key or a click. `wrong` is what
/// is wrong with the query.
pub open spec fn search_asked(v: AppView, manual: bool, wrong: Option<Seq<char>>) -> Outcome {
    let (a, e) = search_stopped(v);
    let query = trim(v.query, Class::White);
    if query.len() == 0 {
        (empty_refused(a, manual), e)
    } else {
        let (b, f) = search_begun(a, query, wrong);
        (b, e + f)
    }
}

/// What is wrong with the view's query.
pub open spec fn query_error(v: AppView) -> Option<Seq<char>> {
    regex_error(query_pattern(trim(v.query, Class::White), v.regex, v.whole_word), !v.case_sensitive)
}

/// How the call of ripgrep went.
#[derive(Clone, Copy, PartialEq, Eq, Debug, Structural)]
pub enum Spawned {
    Running,
    /// It could not be called.
    Missing,
    /// What it writes cannot be read.
    Unreadable,
}

pub open spec fn spawned(v: AppView, how: Spawned) -> AppView {
    match how {
        Spawned::Running => AppView { running: true, ..v },
        Spawned::Missing => AppView {
            searching: false,
            rg_error: Some("ripgrep (`rg`) is not available."@),
            ..v
        },
        Spawned::Unreadable => AppView {
            searching: false,
            inline_error: Some("Search failed to capture rg output"@),
            ..v
        },
    }
}

/// The first group at or after `i` of this file, or the number of groups.
pub open spec fn group_at(groups: Seq<GroupView>, path: Seq<char>, i: int) -> int
    decreases groups.len() - i,
{
    if i >= groups.len() {
        groups.len() as int
    } else if groups[i].path == path {
        i
    } else {
        group_at(groups, path, i + 1)
    }
}

pub open spec fn match_of(m: FoundView) -> MatchView {
    MatchView {
        line_number: m.line_number,
        line_text: m.line_text,
        submatches: m.submatches,
    }
}

/// The groups with one more find: in its file's group, or in a new one at the end.
pub open spec fn with_match(groups: Seq<GroupView>, m: FoundView) -> Seq<GroupView> {
    let i = group_at(groups, m.path, 0);
    if i < groups.len() {
        groups.update(
            i,
            GroupView { path: groups[i].path, matches: groups[i].matches.push(match_of(m)) },
        )
    } else {
        groups.push(GroupView { path: m.path, matches: seq![match_of(m)] })
    }
}

/// The rows of a group's finds.
pub open spec fn match_rows(group: usize, n: nat) -> Seq<DisplayRow> {
    Seq::new(n, |i: int| DisplayRow::Match { group, item: i as usize })
}

/// The rows of the first `n` groups: each below its file.
pub open spec fn rows_of(groups: Seq<GroupView>, n: int) -> Seq<DisplayRow>
    decreases n,
{
    if n <= 0 {
        Seq::empty()
    } else {
        rows_of(groups, n - 1).push(DisplayRow::Header((n - 1) as usize)) + match_rows(
            (n - 1) as usize,
            groups[n - 1].matches.len(),
        )
    }
}

pub open spec fn match_pushed(v: AppView, m: FoundView) -> AppView {
    let groups = with_match(v.groups, m);
    AppView { groups, rows: rows_of(groups, groups.len() as int), ..v }
}

/// The first `n` events are taken over.
pub open spec fn events_taken(v: AppView, events: Seq<EventView>, n: int) -> AppView
    decreases n,
{
    if n <= 0 {
        v
    } else {
        let a = events_taken(v, events, n - 1);
        match events[n - 1] {
            EventView::Match(m) => match_pushed(a, m),
            EventView::Finished => a,
        }
    }
}

/// How many finds the first `n` groups have, as far as can be counted.
pub open spec fn match_count(groups: Seq<GroupView>, n: int) -> int
    decreases n,
{
    if n <= 0 {
        0
    } else {
        least(
            match_count(groups, n - 1) + groups[n - 1].matches.len(),
            usize::MAX as int,
        )
    }
}

/// What is said of a search that is done.
pub open spec fn summary_of(groups: Seq<GroupView>) -> Seq<char> {
    let n = match_count(groups, groups.len() as int);
    if n == 0 {
        "No results"@
    } else {
        digits(n as nat) + " matches in "@ + digits(groups.len()) + " files"@
    }
}

/// What the running search reported is taken over.
pub open spec fn polled(v: AppView, events: Seq<EventView>) -> AppView {
    if !v.running {
        v
    } else {
        let a = events_taken(v, events, events.len() as int);
        if events.contains(EventView::Finished) {
            AppView {
                running: false,
                searching: false,
                summary: Some(summary_of(a.groups)),
                ..a
            }
        } else {
            a
        }
    }
}

proof fn lemma_group_at(groups: Seq<GroupView>, path: Seq<char>, i: int)
    requires
        0 <= i,
    ensures
        group_at(groups, path, i) < groups.len() ==> groups[group_at(groups, path, i)].path == path
            && group_at(groups, path, i) >= i,
        group_at(groups, path, i) >= groups.len() ==> forall|k: int|
            i <= k < groups.len() ==> (#[trigger] groups[k]).path != path,
    decreases groups.len() - i,
{
    if i < groups.len() && groups[i].path != path {
        lemma_group_at(groups, path, i + 1);
    }
}

/// No two groups are of one file.
pub open spec fn files_differ(groups: Seq<GroupView>) -> bool {
    forall|i: int, j: int|
        0 <= i < j < groups.len() ==> (#[trigger] groups[i]).path != (#[trigger] groups[j]).path
}

/// Each file has one group, however the finds come in.
pub proof fn law_each_file_has_one_group(groups: Seq<GroupView>, m: FoundView)
    requires
        files_differ(groups),
    ensures
        files_differ(with_match(groups, m)),
{
    lemma_group_at(groups, m.path, 0);
}

impl App {
    /// Stops the running search.
    pub fn cancel_running(&mut self) -> (r: Vec<Effect>)
        ensures
            (final(self)@, effects(r@)) == cancelled(old(self)@),
    {
        let was = self.running;
        self.running = false;
        self.searching = false;
        if was {
            one_effect(Effect::Cancel)
        } else {
            no_effects()
        }
    }

    /// Begins the search for a query, if nothing is wrong with it.
    pub fn begin_search(&mut self, query: &str, wrong: Option<String>) -> (r: Vec<Effect>)
        ensures
            (final(self)@, effects(r@)) == search_begun(old(self)@, query@, opt_text(wrong)),
    {
        let state = self.workspace_state();
        self.clear_results();
        match wrong {
            Some(e) => {
                self.inline_error = Some(e);
                no_effects()
            },
            None => {
                self.searching = true;
                one_effect(Effect::Search(search_command(&state, query)))
            },
        }
    }

    fn stop_search(&mut self) -> (r: Vec<Effect>)
        ensures
            (final(self)@, effects(r@)) == search_stopped(old(self)@),
    {
        self.pending_search = None;
        self.inline_error = None;
        self.cancel_running()
    }

    fn refuse_empty(&mut self, manual: bool)
        ensures
            final(self)@ == empty_refused(old(self)@, manual),
    {
        let error = if manual {
            Some("Enter a search term".to_string())
        } else {
            None
        };
        self.clear_results();
        self.inline_error = error;
    }

    fn check_query(&self, query: &str) -> (r: Option<String>)
        ensures
            opt_text(r) == regex_error(
                query_pattern(query@, self@.regex, self@.whole_word),
                !self@.case_sensitive,
            ),
    {
        match validate_pattern(query, self.regex, self.case_sensitive, self.whole_word) {
            Ok(()) => None,
            Err(e) => Some(e),
        }
    }

    /// Searches for the view's query.
    pub fn start_search(&mut self, manual: bool) -> (r: Vec<Effect>)
        ensures
            (final(self)@, effects(r@)) == search_asked(
                old(self)@,
                manual,
                query_error(old(self)@),
            ),
    {
        let mut e = self.stop_search();
        let v = chars_of(self.query.as_str());
        let query = trimmed(&v, Class::White);
        if query.len() == 0 {
            self.refuse_empty(manual);
            return e;
        }
        let query = text_of(&query);
        let wrong = self.check_query(query.as_str());
        let ghost x = effects(e@);
        let mut f = self.begin_search(query.as_str(), wrong);
        let ghost y = effects(f@);
        e.append(&mut f);
        assert(effects(e@) =~= x + y);
        e
    }

    /// Goes on after ripgrep was called.
    pub fn search_spawned(&mut self, how: Spawned)
        ensures
            final(self)@ == spawned(old(self)@, how),
    {
        match how {
            Spawned::Running => {
                self.running = true;
            },
            Spawned::Missing => {
                self.searching = false;
                self.rg_error = Some("ripgrep (`rg`) is not available.".to_string());
            },
            Spawned::Unreadable => {
                self.searching = false;
                self.inline_error = Some("Search failed to capture rg output".to_string());
            },
        }
    }

    /// Goes on after a look whether ripgrep is there.
    pub fn rg_checked(&mut self, found: bool)
        ensures
            final(self)@ == (AppView {
                rg_error: if found {
                    None
                } else {
                    Some("ripgrep (`rg`) was not found on PATH."@)
                },
                ..old(self)@
            }),
    {
        let error = if found {
            None
        } else {
            Some("ripgrep (`rg`) was not found on PATH.".to_string())
        };
        self.rg_error = error;
    }

    /// Lets a search begin a little after the last change.
    pub fn schedule_search(&mut self, now: u64)
        ensures
            final(self)@ == (AppView {
                pending_search: Some(least(now + SEARCH_DEBOUNCE, u64::MAX as int) as u64),
                ..old(self)@
            }),
    {
        let at = if now > u64::MAX - SEARCH_DEBOUNCE {
            u64::MAX
        } else {
            now + SEARCH_DEBOUNCE
        };
        self.pending_search = Some(at);
    }

    /// Begins the search that is due.
    pub fn tick(&mut self, now: u64) -> (r: Vec<Effect>)
        ensures
            (final(self)@, effects(r@)) == (match old(self)@.pending_search {
                Some(at) => if now >= at {
                    search_asked(old(self)@, false, query_error(old(self)@))
                } else {
                    (old(self)@, Seq::empty())
                },
                None => (old(self)@, Seq::empty()),
            }),
    {
        match self.pending_search {
            Some(at) => if now >= at {
                self.start_search(false)
            } else {
                no_effects()
            },
            None => no_effects(),
        }
    }

    fn find_group(&self, path: &str) -> (r: usize)
        ensures
            r == group_at(self@.groups, path@, 0),
            r <= self.groups@.len(),
    {
        let ghost all = self@.groups;
        assert(all.len() == self.groups@.len());
        let mut i: usize = 0;
        while i < self.groups.len()
            invariant
                i <= self.groups@.len(),
                all == groups_view(self.groups@),
                all == self@.groups,
                group_at(all, path@, 0) == group_at(all, path@, i as int),
            decreases self.groups@.len() - i,
        {
            assert(all[i as int] == self.groups@[i as int]@);
            if eq_text(self.groups[i].path.as_str(), path) {
                return i;
            }
            i += 1;
        }
        self.groups.len()
    }

    fn add_match(&mut self, found: UiMatch)
        ensures
            final(self)@ == (AppView {
                groups: with_match(old(self)@.groups, found@),
                ..old(self)@
            }),
    {
        let i = self.find_group(found.path.as_str());
        let ghost all = self@.groups;
        assert(all.len() == self.groups@.len());
        let one = SearchMatch {
            line_number: found.line_number,
            line_text: found.line_text,
            submatches: found.submatches,
        };
        let ghost m = one@;
        assert(m == match_of(found@));
        if i < self.groups.len() {
            let ghost before = self.groups@[i as int];
            assert(all[i as int] == before@);
            self.groups[i].matches.push(one);
            let ghost after = self.groups@[i as int];
            assert(matches_view(after.matches@) =~= matches_view(before.matches@).push(m));
            assert(groups_view(self.groups@) =~= all.update(i as int, after@));
        } else {
            let mut matches: Vec<SearchMatch> = Vec::new();
            matches.push(one);
            assert(matches_view(matches@) =~= seq![m]);
            let group = SearchGroup { path: found.path, matches };
            self.groups.push(group);
            assert(groups_view(self.groups@) =~= all.push(group@));
        }
    }

    /// Lists the results anew.
    pub fn rebuild_rows(&mut self)
        ensures
            final(self)@ == (AppView {
                rows: rows_of(old(self)@.groups, old(self)@.groups.len() as int),
                ..old(self)@
            }),
    {
        let ghost all = self@.groups;
        assert(all.len() == self.groups@.len());
        let mut rows: Vec<DisplayRow> = Vec::new();
        let mut g: usize = 0;
        while g < self.groups.len()
            invariant
                g <= self.groups@.len(),
                all == groups_view(self.groups@),
                rows@ =~= rows_of(all, g as int),
            decreases self.groups@.len() - g,
        {
            assert(all[g as int] == self.groups@[g as int]@);
            rows.push(DisplayRow::Header(g));
            let ghost head = rows@;
            let n = self.groups[g].matches.len();
            let mut i: usize = 0;
            while i < n
                invariant
                    i <= n,
                    rows@ =~= head + match_rows(g, i as nat),
                decreases n - i,
            {
                rows.push(DisplayRow::Match { group: g, item: i });
                i += 1;
            }
            assert(all[g as int].matches.len() == n);
            g += 1;
        }
        self.rows = rows;
    }

    /// Takes a find over.
    pub fn push_match(&mut self, found: UiMatch)
        ensures
            final(self)@ == match_pushed(old(self)@, found@),
    {
        self.add_match(found);
        self.rebuild_rows();
    }

    fn summarize(&self) -> (r: String)
        ensures
            r@ == summary_of(self@.groups),
    {
        let ghost all = self@.groups;
        assert(all.len() == self.groups@.len());
        let mut n: usize = 0;
        let mut g: usize = 0;
        while g < self.groups.len()
            invariant
                g <= self.groups@.len(),
                all == groups_view(self.groups@),
                n == match_count(all, g as int),
            decreases self.groups@.len() - g,
        {
            assert(all[g as int] == self.groups@[g as int]@);
            assert(all[g as int].matches.len() == self.groups@[g as int].matches@.len());
            n = n.saturating_add(self.groups[g].matches.len());
            g += 1;
        }
        if n == 0 {
            return "No results".to_string();
        }
        let a = digits_of(n);
        let b = digits_of(self.groups.len());
        let start = cat(text_of(&a).as_str(), " matches in ");
        cat3(start.as_str(), text_of(&b).as_str(), " files")
    }

    /// Takes over what the running search reported.
    pub fn poll_running(&mut self, events: Vec<SearchEvent>)
        ensures
            final(self)@ == polled(old(self)@, events_view(events@)),
    {
        if !self.running {
            return;
        }
        let ghost first = self@;
        let ghost all = events_view(events@);
        assert(all.len() == events@.len());
        let mut finished = false;
        let mut rest = events;
        let total = rest.len();
        let mut n: usize = 0;
        while n < total
            invariant
                n <= total,
                total == all.len(),
                rest@.len() == total - n,
                forall|k: int| 0 <= k < total - n ==> (#[trigger] rest@[k])@ == all[n + k],
                self@ == events_taken(first, all, n as int),
                finished == all.take(n as int).contains(EventView::Finished),
            decreases total - n,
        {
            let ghost before = rest@;
            let ghost seen = all.take(n as int);
            let event = rest.remove(0);
            proof {
                assert(event@ == all[n as int]);
                assert(all.take(n + 1) =~= seen.push(event@));
                assert forall|k: int| 0 <= k < total - n - 1 implies (#[trigger] rest@[k])@ == all[n
                    + 1 + k] by {
                    assert(rest@[k] == before[k + 1]);
                }
                if event@ != EventView::Finished {
                    lemma_push_contains(seen, event@);
                } else {
                    assert(seen.push(event@)[seen.len() as int] == EventView::Finished);
                }
            }
            match event {
                SearchEvent::Match(found) => {
                    self.push_match(found);
                },
                SearchEvent::Finished => {
                    finished = true;
                },
            }
            n += 1;
        }
        assert(all.take(total as int) =~= all);
        if finished {
            let summary = self.summarize();
            self.running = false;
            self.searching = false;
            self.summary = Some(summary);
        }
    }
}

proof fn lemma_push_contains(s: Seq<EventView>, e: EventView)
    requires
        e != EventView::Finished,
    ensures
        s.push(e).contains(EventView::Finished) == s.contains(EventView::Finished),
{
    if s.contains(EventView::Finished) {
        let k = choose|k: int| 0 <= k < s.len() && s[k] == EventView::Finished;
        assert(s.push(e)[k] == EventView::Finished);
    }
    if s.push(e).contains(EventView::Finished) {
        let k = choose|k: int|
            0 <= k < s.push(e).len() && s.push(e)[k] == EventView::Finished;
        assert(k < s.len());
        assert(s[k] == EventView::Finished);
    }
}

// ---- Selecting ----

/// The first row at or after `i` that can be selected, or the number of rows.
pub open spec fn match_from(rows: Seq<DisplayRow>, i: int) -> int
    decreases rows.len() - i,
{
    if i >= rows.len() {
        rows.len() as int
    } else if rows[i] is Match {
        i
    } else {
        match_from(rows, i + 1)
    }
}

/// The last row before `n` that can be selected, or -1.
pub open spec fn match_before(rows: Seq<DisplayRow>, n: int) -> int
    decreases n,
{
    if n <= 0 {
        -1
    } else if rows[n - 1] is Match {
        n - 1
    } else {
        match_before(rows, n - 1)
    }
}

pub open spec fn first_match(rows: Seq<DisplayRow>) -> Option<usize> {
    let i = match_from(rows, 0);
    if i < rows.len() {
        Some(i as usize)
    } else {
        None
    }
}

pub open spec fn last_match(rows: Seq<DisplayRow>) -> Option<usize> {
    let i = match_before(rows, rows.len() as int);
    if i >= 0 {
        Some(i as usize)
    } else {
        None
    }
}

/// A row is selected, and scrolled into sight.
pub open spec fn selected_at(v: AppView, i: Option<usize>) -> AppView {
    AppView { selected: i, snap: i is Some, ..v }
}

/// The selection moves to the next row that can be selected; at the ends it stays.
pub open spec fn selection_moved(v: AppView, down: bool) -> AppView {
    let start = match v.selected {
        Some(i) => Some(i),
        None => first_match(v.rows),
    };
    match start {
        None => v,
        Some(i) => {
            let to = if down {
                match_from(v.rows, i + 1)
            } else {
                match_before(v.rows, least(i as int, v.rows.len() as int))
            };
            if 0 <= to < v.rows.len() {
                selected_at(v, Some(to as usize))
            } else {
                v
            }
        },
    }
}

/// What the selected row shows in the preview.
pub open spec fn preview_of(v: AppView, i: int) -> Option<RequestView> {
    if 0 <= i < v.rows.len() {
        match v.rows[i] {
            DisplayRow::Match { group, item } => if group < v.groups.len() && item
                < v.groups[group as int].matches.len() {
                Some(
                    RequestView::SearchFile {
                        path: under_dir(v.root, v.groups[group as int].path),
                        line: v.groups[group as int].matches[item as int].line_number,
                        query: v.query,
                        regex: v.regex,
                        case_sensitive: v.case_sensitive,
                        whole_word: v.whole_word,
                    },
                )
            } else {
                None
            },
            DisplayRow::Header(_) => None,
        }
    } else {
        None
    }
}

/// The selected find is shown in the preview.
pub open spec fn preview_opened(v: AppView) -> Outcome {
    match v.selected {
        None => (v, Seq::empty()),
        Some(i) => match preview_of(v, i as int) {
            None => (v, Seq::empty()),
            Some(request) => if v.pane_id is Some {
                (v, seq![EffectView::Preview(payload(request))])
            } else {
                (AppView { notice: Some("preview needs a herdr pane"@), ..v }, Seq::empty())
            },
        },
    }
}

impl App {
    fn next_match(&self, from: usize) -> (r: Option<usize>)
        ensures
            ({
                let i = match_from(self@.rows, from as int);
                r == (if i < self@.rows.len() {
                    Some(i as usize)
                } else {
                    None
                })
            }),
    {
        let mut i = from;
        while i < self.rows.len()
            invariant
                match_from(self@.rows, from as int) == match_from(self@.rows, i as int),
            decreases self.rows@.len() - i,
        {
            if self.rows[i].selectable() {
                return Some(i);
            }
            i += 1;
        }
        None
    }

    fn match_above(&self, n: usize) -> (r: Option<usize>)
        requires
            n <= self@.rows.len(),
        ensures
            ({
                let i = match_before(self@.rows, n as int);
                r == (if i >= 0 {
                    Some(i as usize)
                } else {
                    None
                })
            }),
            r matches Some(i) ==> i < self@.rows.len(),
    {
        let mut k = n;
        while k > 0
            invariant
                k <= n <= self@.rows.len(),
                match_before(self@.rows, n as int) == match_before(self@.rows, k as int),
            decreases k,
        {
            if self.rows[k - 1].selectable() {
                return Some(k - 1);
            }
            k -= 1;
        }
        None
    }

    pub fn select_first_result(&mut self)
        ensures
            final(self)@ == selected_at(old(self)@, first_match(old(self)@.rows)),
    {
        let i = self.next_match(0);
        self.snap = i.is_some();
        self.selected = i;
    }

    pub fn select_last_result(&mut self)
        ensures
            final(self)@ == selected_at(old(self)@, last_match(old(self)@.rows)),
    {
        let i = self.match_above(self.rows.len());
        self.snap = i.is_some();
        self.selected = i;
    }

    /// Moves the selection.
    pub fn move_selection(&mut self, down: bool)
        ensures
            final(self)@ == selection_moved(old(self)@, down),
    {
        let start = match self.selected {
            Some(i) => i,
            None => match self.next_match(0) {
                Some(i) => i,
                None => {
                    return;
                },
            },
        };
        let total = self.rows.len();
        proof {
            lemma_match_from(self@.rows, start + 1);
            lemma_match_before(self@.rows, least(start as int, self@.rows.len() as int));
        }
        let to = if down {
            if start >= total {
                None
            } else {
                self.next_match(start + 1)
            }
        } else {
            let n = if start < total {
                start
            } else {
                total
            };
            self.match_above(n)
        };
        let i = match to {
            Some(i) => i,
            None => {
                assert(selection_moved(self@, down) == self@);
                return;
            },
        };
        self.selected = Some(i);
        self.snap = true;
    }

    fn preview_payload(&self, i: usize) -> (r: Option<String>)
        ensures
            opt_text(r) == (match preview_of(self@, i as int) {
                Some(request) => Some(payload(request)),
                None => None,
            }),
    {
        if i >= self.rows.len() {
            return None;
        }
        match self.rows[i] {
            DisplayRow::Match { group, item } => {
                assert(self@.groups.len() == self.groups@.len());
                if group >= self.groups.len() {
                    return None;
                }
                let g = &self.groups[group];
                assert(self@.groups[group as int] == g@);
                assert(g@.matches.len() == g.matches@.len());
                if item >= g.matches.len() {
                    return None;
                }
                assert(g@.matches[item as int] == g.matches@[item as int]@);
                let path = join_path(self.root.as_str(), g.path.as_str());
                Some(
                    search_file_request(
                        path.as_str(),
                        g.matches[item].line_number,
                        self.query.as_str(),
                        self.regex,
                        self.case_sensitive,
                        self.whole_word,
                    ),
                )
            },
            DisplayRow::Header(_) => None,
        }
    }

    /// Shows the selected find in the preview.
    pub fn open_selected_preview(&mut self) -> (r: Vec<Effect>)
        ensures
            (final(self)@, effects(r@)) == preview_opened(old(self)@),
    {
        let i = match self.selected {
            Some(i) => i,
            None => {
                return no_effects();
            },
        };
        match self.preview_payload(i) {
            None => no_effects(),
            Some(payload) => if self.pane_id.is_some() {
                one_effect(Effect::Preview(payload))
            } else {
                self.notice = Some("preview needs a herdr pane".to_string());
                no_effects()
            },
        }
    }

    /// Goes on after the preview was asked for.
    pub fn preview_ended(&mut self, result: Result<(), String>)
        ensures
            final(self)@ == (match result {
                Ok(()) => old(self)@,
                Err(e) => AppView { notice: Some(e@), ..old(self)@ },
            }),
    {
        if let Err(e) = result {
            self.notice = Some(e);
        }
    }
}

proof fn lemma_match_from(rows: Seq<DisplayRow>, i: int)
    requires
        0 <= i,
    ensures
        match_from(rows, i) >= i || match_from(rows, i) >= rows.len(),
        match_from(rows, i) < rows.len() ==> rows[match_from(rows, i)] is Match,
    decreases rows.len() - i,
{
    if i < rows.len() && !(rows[i] is Match) {
        lemma_match_from(rows, i + 1);
    }
}

proof fn lemma_match_before(rows: Seq<DisplayRow>, n: int)
    requires
        n <= rows.len(),
    ensures
        match_before(rows, n) < n || n <= 0,
        match_before(rows, n) >= 0 ==> rows[match_before(rows, n)] is Match,
    decreases n,
{
    if n > 0 && !(rows[n - 1] is Match) {
        lemma_match_before(rows, n - 1);
    }
}

/// Moving never selects the name of a file.
pub proof fn law_moving_selects_finds(v: AppView, down: bool)
    requires
        v.rows.len() <= usize::MAX,
        v.selected matches Some(i) ==> i < v.rows.len() && v.rows[i as int] is Match,
    ensures
        selection_moved(v, down).selected matches Some(i) ==> i < v.rows.len()
            && v.rows[i as int] is Match,
{
    lemma_match_from(v.rows, 0);
    let start = match v.selected {
        Some(i) => i as int,
        None => match_from(v.rows, 0),
    };
    lemma_match_from(v.rows, start + 1);
    lemma_match_before(v.rows, least(start, v.rows.len() as int));
}

} // verus!
