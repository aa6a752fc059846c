//! What a viewer loads, and what it keeps of what it showed.

use vstd::prelude::*;

use crate::input::Platform;
use crate::paths::native;
use crate::scan::{digits, trim, Class};
use crate::viewer::comments::{clipboard_next, ClipboardView, SavedView};
use crate::viewer::doc::{anchored_row, restored, AnchorView, DocView};
use crate::viewer::load::{
    diff_arguments, output_message, ref_diff_arguments, show_arguments, MAX_LINES, OutputView,
};
use crate::viewer::peers::{is_stale, own_pane, viewer_at, viewer_of, PeerView};
use crate::viewer::preview::ranges_on;
use crate::viewer::request::{alike, RequestView};
use crate::viewer::rows::SelectableView;

verus! {

// ---- What git is asked ----

/// A diff of the working tree is asked for one path, which stands behind the word that ends
/// the options. What is staged is asked for with the option for it, and nothing else is; a file
/// that git does not know is compared with one that is empty. With unchanged lines hidden there
/// are as many around a change as are ever shown; else half of that.
pub proof fn law_diffs_are_asked_for_one_path(
    rel: Seq<char>,
    kind: Seq<char>,
    hide: bool,
    platform: Platform,
)
    ensures
        ({
            let args = diff_arguments(rel, kind, hide, platform);
            let n = args.len() - 2;
            &&& n >= 3
            &&& args[n] == "--"@ && args[n + 1] == native(rel, platform)
            &&& args[0] == "diff"@
            &&& args.contains("--unified="@ + digits(
                if hide {
                    MAX_LINES as nat
                } else {
                    (MAX_LINES / 2) as nat
                },
            ))
            &&& kind == "staged"@ ==> args[n - 1] == "--cached"@
            &&& kind == "untracked"@ ==> args[n - 2] == "--no-index"@ && args[n - 1] == (
            if platform == Platform::Windows {
                "NUL"@
            } else {
                "/dev/null"@
            })
            &&& kind != "staged"@ && kind != "untracked"@ ==> n == 3
            &&& kind == "untracked"@ ==> n == 5
            &&& kind == "staged"@ ==> n == 4
        }),
{
    reveal_strlit("staged");
    reveal_strlit("untracked");
    assert("staged"@.len() != "untracked"@.len());
    let args = diff_arguments(rel, kind, hide, platform);
    assert(args[2] == "--unified="@ + digits(
        if hide {
            MAX_LINES as nat
        } else {
            (MAX_LINES / 2) as nat
        },
    ));
}

/// A diff between two revisions is asked for from the older to the newer, and for both paths of
/// a file that was moved.
pub proof fn law_revisions_are_compared_in_order(
    old_spec: Seq<char>,
    new_spec: Seq<char>,
    rel: Seq<char>,
    from: Option<Seq<char>>,
    hide: bool,
    platform: Platform,
)
    ensures
        ({
            let args = ref_diff_arguments(old_spec, new_spec, rel, from, hide, platform);
            let moved = from matches Some(f) && f != rel;
            let n: int = if moved {
                args.len() - 3
            } else {
                args.len() - 2
            };
            &&& n >= 3
            &&& args[0] == "diff"@
            &&& args.take(n).contains("-M"@)
            &&& args[n - 2] == old_spec && args[n - 1] == new_spec && args[n] == "--"@
            &&& args.last() == native(rel, platform)
            &&& moved ==> args[n + 1] == native(from->0, platform)
        }),
{
    let args = ref_diff_arguments(old_spec, new_spec, rel, from, hide, platform);
    assert(args[2] == "-M"@);
    assert(args.take(6)[2] == "-M"@);
}

/// A commit is asked for by its name, with its path behind the word that ends the options.
pub proof fn law_commits_are_asked_for_by_name(
    spec: Seq<char>,
    path: Seq<char>,
    platform: Platform,
)
    ensures
        show_arguments(spec, None, platform).contains("show"@),
        show_arguments(spec, None, platform).last() == spec,
        show_arguments(spec, Some(path), platform) == show_arguments(spec, None, platform).push(
            "--"@,
        ).push(native(path, platform)),
{
    assert(show_arguments(spec, None, platform)[2] == "show"@);
}

/// What git wrote is shown, and only where that is blank something is said instead: why git
/// could not be run, what it complained of, or that there is nothing.
pub proof fn law_output_is_shown(stdout: Seq<char>, stderr: Seq<char>, e: Seq<char>, nothing: Seq<char>)
    ensures
        output_message(OutputView::Ran { stdout, stderr }, nothing) is None <==> trim(
            stdout,
            Class::White,
        ).len() > 0,
        trim(stdout, Class::White).len() == 0 && trim(stderr, Class::White).len() == 0
            ==> output_message(OutputView::Ran { stdout, stderr }, nothing) == Some(nothing),
        trim(stdout, Class::White).len() == 0 && trim(stderr, Class::White).len() > 0
            ==> output_message(OutputView::Ran { stdout, stderr }, nothing) == Some(
            seq!['('] + trim(stderr, Class::White) + seq![')'],
        ),
        output_message(OutputView::Failed(e), nothing) == Some("(git failed: "@ + e + seq![')']),
{
    reveal_strlit("(");
    reveal_strlit(")");
    assert("("@ =~= seq!['(']);
    assert(")"@ =~= seq![')']);
}

// ---- What stays ----

/// A document that is loaded anew stands so that the row which was remembered is on the same
/// row of the screen as before, where there are enough rows above it. It is not found only where
/// no row has that text and origin.
pub proof fn law_reloading_keeps_the_place(d: DocView, a: AnchorView)
    requires
        d.visual_width == 0,
    ensures
        restored(d, a) matches Some(r) ==> r.sources == d.sources && r.lines == d.lines && (r.scroll > 0
            ==> 0 <= r.scroll + a.screen_row < d.sources.len() && is_row(
            d.sources[r.scroll + a.screen_row],
            a,
        )),
        restored(d, a) is None <==> forall|i: int|
            0 <= i < d.sources.len() ==> !is_row(#[trigger] d.sources[i], a),
{
    lemma_anchored_row(d.sources, a, 0);
}

/// Whether a row has the text and the origin that were remembered.
pub open spec fn is_row(row: Option<SelectableView>, a: AnchorView) -> bool {
    row is Some && row->0.raw == a.raw && row->0.kind == a.kind
}

proof fn lemma_anchored_row(sources: Seq<Option<SelectableView>>, a: AnchorView, i: int)
    requires
        0 <= i <= sources.len(),
    ensures
        i <= anchored_row(sources, a, i) <= sources.len(),
        anchored_row(sources, a, i) < sources.len() ==> is_row(
            sources[anchored_row(sources, a, i)],
            a,
        ),
        forall|k: int|
            i <= k < anchored_row(sources, a, i) ==> !is_row(#[trigger] sources[k], a),
    decreases sources.len() - i,
{
    if i < sources.len() && !is_row(sources[i], a) {
        lemma_anchored_row(sources, a, i + 1);
    }
}

/// The ranges that are marked in a document are those of the comments on it, all of them and
/// no others, in the order of the comments.
pub proof fn law_comments_mark_their_document(
    comments: Seq<SavedView>,
    comment: SavedView,
    current: RequestView,
)
    ensures
        ranges_on(Seq::empty(), current, 0).len() == 0,
        alike(comment.pending.document, current) ==> ranges_on(
            comments.push(comment),
            current,
            comments.len() as int + 1,
        ) == ranges_on(comments, current, comments.len() as int).push(comment.pending.range),
        !alike(comment.pending.document, current) ==> ranges_on(
            comments.push(comment),
            current,
            comments.len() as int + 1,
        ) == ranges_on(comments, current, comments.len() as int),
{
    lemma_ranges_of_first(comments, comments.push(comment), current, comments.len() as int);
}

proof fn lemma_ranges_of_first(a: Seq<SavedView>, b: Seq<SavedView>, current: RequestView, n: int)
    requires
        0 <= n <= a.len(),
        n <= b.len(),
        forall|i: int| 0 <= i < n ==> a[i] == b[i],
    ensures
        ranges_on(a, current, n) == ranges_on(b, current, n),
    decreases n,
{
    if n > 0 {
        lemma_ranges_of_first(a, b, current, n - 1);
    }
}

/// The viewer of a pane is a pane of the same tab that says it is one; there is none only where
/// no pane of the tab does.
pub proof fn law_viewers_are_in_the_same_tab(
    panes: Seq<PeerView>,
    owner: int,
    id: Seq<char>,
    tab: Seq<char>,
    now: u64,
    stale: u64,
)
    requires
        0 <= owner < panes.len(),
        panes[owner].pane_id == Some(id),
        panes[owner].tab_id == Some(tab),
        forall|k: int| 0 <= k < owner ==> (#[trigger] panes[k]).pane_id != Some(id),
        forall|k: int| 0 <= k < panes.len() ==> (#[trigger] panes[k]).pane_id is Some,
    ensures
        viewer_of(panes, id, now, stale) matches Some((viewer, gone)) ==> exists|i: int|
            0 <= i < panes.len() && shows_files(#[trigger] panes[i], tab) && panes[i].pane_id == Some(
                viewer,
            ) && gone == is_stale(panes[i], now, stale),
        viewer_of(panes, id, now, stale) is None ==> forall|i: int|
            0 <= i < panes.len() ==> !shows_files(#[trigger] panes[i], tab),
{
    lemma_own_pane(panes, id, 0, owner);
    lemma_viewer_at(panes, tab, 0);
    let i = viewer_at(panes, tab, 0);
    if i < panes.len() {
        assert(shows_files(panes[i], tab));
    }
}

/// Whether a pane of this tab says that it is a viewer.
pub open spec fn shows_files(pane: PeerView, tab: Seq<char>) -> bool {
    pane.tab_id == Some(tab) && (pane.viewer_stamp is Some || pane.label == Some("Preview"@))
}

proof fn lemma_own_pane(panes: Seq<PeerView>, id: Seq<char>, i: int, owner: int)
    requires
        0 <= i <= owner < panes.len(),
        panes[owner].pane_id == Some(id),
        forall|k: int| 0 <= k < owner ==> (#[trigger] panes[k]).pane_id != Some(id),
    ensures
        own_pane(panes, id, i) == owner,
    decreases owner - i,
{
    if i < owner {
        assert(panes[i].pane_id != Some(id));
        lemma_own_pane(panes, id, i + 1, owner);
    }
}

proof fn lemma_viewer_at(panes: Seq<PeerView>, tab: Seq<char>, i: int)
    requires
        0 <= i <= panes.len(),
    ensures
        i <= viewer_at(panes, tab, i) <= panes.len(),
        viewer_at(panes, tab, i) < panes.len() ==> shows_files(
            panes[viewer_at(panes, tab, i)],
            tab,
        ),
        forall|k: int|
            i <= k < viewer_at(panes, tab, i) ==> !shows_files(#[trigger] panes[k], tab),
    decreases panes.len() - i,
{
    if i < panes.len() && !shows_files(panes[i], tab) {
        lemma_viewer_at(panes, tab, i + 1);
    }
}

/// Text is copied as soon as one program takes it, and no program is run twice: where one
/// failed, the next is another, until none is left and the last failure is told.
pub proof fn law_copying_tries_each_program_once(
    platform: Platform,
    a: Seq<Result<(), String>>,
    b: Seq<Result<(), String>>,
)
    requires
        a.len() < b.len(),
    ensures
        clipboard_next(platform, b) is Copied <==> b.last() is Ok,
        clipboard_next(platform, Seq::empty()) is Run,
        (clipboard_next(platform, a) matches ClipboardView::Run(p, _) && clipboard_next(platform, b) matches ClipboardView::Run(
            q,
            _,
        )) ==> clipboard_next(platform, a)->Run_0 != clipboard_next(platform, b)->Run_0,
        b.last() is Err && (b.len() >= 3 || platform != Platform::Other) ==> clipboard_next(platform, b)
            == ClipboardView::Failed(b.last()->Err_0@),
        b.last() is Err && b.len() < 3 && platform == Platform::Other ==> clipboard_next(platform, b) is Run,
{
    reveal_strlit("wl-copy");
    reveal_strlit("xclip");
    reveal_strlit("xsel");
    assert("wl-copy"@.len() == 7);
    assert("xclip"@.len() == 5);
    assert("xsel"@.len() == 4);
}

} // verus!
