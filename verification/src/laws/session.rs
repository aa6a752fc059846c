//! What a call of the program asks for, and how a view starts.

use vstd::prelude::*;

use crate::session::{command_of, started, CommandView, Shared};
use crate::sidebar::SideView;

verus! {

/// A preview is of the path that follows the word for it; the word that chooses a view is
/// followed by the view's name; every other first word is kept to be told.
pub proof fn law_words_choose_what_runs(path: Seq<char>, word: Seq<char>, rest: Seq<Seq<char>>)
    ensures
        command_of(Seq::empty()) == CommandView::Run(None),
        command_of(seq!["--preview"@, path] + rest) == CommandView::Preview(path),
        command_of(seq!["--preview"@]) is PreviewOfNothing,
        command_of(seq!["--view"@, "explorer"@] + rest) == CommandView::Run(Some(SideView::Explorer)),
        command_of(seq!["--view"@, "git"@] + rest) == CommandView::Run(Some(SideView::SourceControl)),
        command_of(seq!["--view"@, "search"@] + rest) == CommandView::Run(Some(SideView::Search)),
        command_of(seq!["--launch-decision"@, word] + rest) == (CommandView::LaunchDecision {
            git: word == "git"@,
        }),
        command_of(seq!["--launch-decision"@]) == (CommandView::LaunchDecision { git: false }),
        (word.len() == 0 || word[0] != '-') ==> command_of(seq![word] + rest) == CommandView::Unknown(word),
{
    reveal_strlit("--preview");
    reveal_strlit("--view");
    reveal_strlit("--launch-decision");
    reveal_strlit("--focused-pane");
    reveal_strlit("--open-plan");
    reveal_strlit("--focused-tab");
    reveal_strlit("--auto-open");
    reveal_strlit("explorer");
    reveal_strlit("git");
    reveal_strlit("search");
    assert("--preview"@.len() == 9);
    assert("--view"@.len() == 6);
    assert("--launch-decision"@.len() == 17);
    assert("--focused-pane"@.len() == 14);
    assert("--open-plan"@.len() == 11);
    assert("--focused-tab"@.len() == 13);
    assert("--auto-open"@.len() == 11);
    assert("explorer"@.len() == 8);
    assert("git"@.len() == 3);
    assert("search"@.len() == 6);
    assert((seq![word] + rest)[0] == word);
    assert((seq!["--preview"@, path] + rest)[0] == "--preview"@);
    assert((seq!["--preview"@, path] + rest)[1] == path);
    assert((seq!["--launch-decision"@, word] + rest)[0] == "--launch-decision"@);
    assert((seq!["--launch-decision"@, word] + rest)[1] == word);
    assert((seq!["--view"@, "explorer"@] + rest)[0] == "--view"@);
    assert((seq!["--view"@, "git"@] + rest)[0] == "--view"@);
    assert((seq!["--view"@, "search"@] + rest)[0] == "--view"@);
    assert((seq!["--view"@, "explorer"@] + rest)[1] == "explorer"@);
    assert((seq!["--view"@, "git"@] + rest)[1] == "git"@);
    assert((seq!["--view"@, "search"@] + rest)[1] == "search"@);
}

/// A view that starts takes the width, and what is shared, only of a sidebar that shows the same
/// view; it has something to share first where nothing of it is shared yet.
pub proof fn law_views_start_as_they_are_shared(view: SideView, shared: Shared, now: u64)
    ensures
        started(view, None, now).0.target_width is None,
        !started(view, None, now).1,
        started(view, None, now).0.needs_initial_publish,
        shared.active != view ==> started(view, Some(shared), now).0.target_width is None && !started(
            view,
            Some(shared),
            now,
        ).1,
        shared.active == view ==> started(view, Some(shared), now).0.target_width == Some(shared.width)
            && started(view, Some(shared), now).1 == shared.has_state,
        started(view, Some(shared), now).0.needs_initial_publish == !shared.has_state,
        started(view, Some(shared), now).0.view == view,
{
}

} // verus!
