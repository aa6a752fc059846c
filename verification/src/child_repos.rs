//! The search for repositories below a directory. It says which directory to list next,
//! takes what was listed, and knows in the end where to look for a repository.

use vstd::prelude::*;

use crate::git::{skipped, skipped_dir};
use crate::text::texts;

verus! {

/// How many levels down the search goes.
pub const SEARCH_DEPTH: usize = 2;

/// What a directory holds: a name, whether it is a directory, and whether there is a
/// `.git` in that, be it a directory or a file.
pub struct Listed {
    pub name: String,
    pub is_dir: bool,
    pub is_repo: bool,
}

pub struct ListedView {
    pub name: Seq<char>,
    pub is_dir: bool,
    pub is_repo: bool,
}

impl View for Listed {
    type V = ListedView;

    open spec fn view(&self) -> ListedView {
        ListedView { name: self.name@, is_dir: self.is_dir, is_repo: self.is_repo }
    }
}

pub open spec fn listed_view(v: Seq<Listed>) -> Seq<ListedView> {
    v.map_values(|e: Listed| e@)
}

/// Where something is: the names that lead there from the directory of the search.
pub type PlaceView = Seq<Seq<char>>;

pub open spec fn places(v: Seq<Vec<String>>) -> Seq<PlaceView> {
    v.map_values(|p: Vec<String>| texts(p@))
}

/// Where a search is.
pub struct ChildSearch {
    todo: Vec<Vec<String>>,
    found: Vec<Vec<String>>,
    tools: Vec<String>,
}

pub struct ChildSearchView {
    /// The directories that are still to be listed.
    pub todo: Seq<PlaceView>,
    /// The directories that may be repositories.
    pub found: Seq<PlaceView>,
    /// The names that are left out besides those that always are.
    pub tools: Seq<Seq<char>>,
}

impl View for ChildSearch {
    type V = ChildSearchView;

    closed spec fn view(&self) -> ChildSearchView {
        ChildSearchView {
            todo: places(self.todo@),
            found: places(self.found@),
            tools: texts(self.tools@),
        }
    }
}

/// Whether the search goes into what is listed.
pub open spec fn entered(e: ListedView, tools: Seq<Seq<char>>) -> bool {
    e.is_dir && !skipped(e.name, tools)
}

/// The directories that the search finds at a place which holds what is listed.
pub open spec fn dirs_at(at: PlaceView, listed: Seq<ListedView>, tools: Seq<Seq<char>>) -> Seq<
    PlaceView,
>
    decreases listed.len(),
{
    if listed.len() == 0 {
        Seq::empty()
    } else if entered(listed.last(), tools) {
        dirs_at(at, listed.drop_last(), tools).push(at.push(listed.last().name))
    } else {
        dirs_at(at, listed.drop_last(), tools)
    }
}

/// Those among them that may be repositories.
pub open spec fn repos_at(at: PlaceView, listed: Seq<ListedView>, tools: Seq<Seq<char>>) -> Seq<
    PlaceView,
>
    decreases listed.len(),
{
    if listed.len() == 0 {
        Seq::empty()
    } else if entered(listed.last(), tools) && listed.last().is_repo {
        repos_at(at, listed.drop_last(), tools).push(at.push(listed.last().name))
    } else {
        repos_at(at, listed.drop_last(), tools)
    }
}

/// A search that begins.
pub open spec fn begun(tools: Seq<Seq<char>>) -> ChildSearchView {
    ChildSearchView { todo: seq![Seq::<Seq<char>>::empty()], found: Seq::empty(), tools }
}

/// The search after the next directory was listed.
pub open spec fn after_listing(s: ChildSearchView, listed: Seq<ListedView>) -> ChildSearchView {
    if s.todo.len() == 0 {
        s
    } else {
        let at = s.todo[0];
        ChildSearchView {
            todo: s.todo.skip(1) + if at.len() + 1 < SEARCH_DEPTH {
                dirs_at(at, listed, s.tools)
            } else {
                Seq::empty()
            },
            found: s.found + repos_at(at, listed, s.tools),
            tools: s.tools,
        }
    }
}

/// The place of a name below another place.
fn place_below(at: &Vec<String>, name: &String) -> (r: Vec<String>)
    ensures
        texts(r@) == texts(at@).push(name@),
{
    let mut out: Vec<String> = Vec::new();
    let mut i: usize = 0;
    while i < at.len()
        invariant
            i <= at@.len(),
            texts(out@) =~= texts(at@).take(i as int),
        decreases at@.len() - i,
    {
        let part = at[i].clone();
        let ghost before = out@;
        out.push(part);
        assert(texts(out@) =~= texts(before).push(part@));
        i += 1;
    }
    assert(texts(at@).take(i as int) =~= texts(at@));
    let last = name.clone();
    let ghost before = out@;
    out.push(last);
    assert(texts(out@) =~= texts(before).push(last@));
    out
}

impl ChildSearch {
    /// Begins a search that leaves out the names in `tools` besides those that it always
    /// leaves out.
    pub fn start(tools: Vec<String>) -> (r: ChildSearch)
        ensures
            r@ == begun(texts(tools@)),
    {
        let here: Vec<String> = Vec::new();
        assert(texts(here@) =~= Seq::empty());
        let mut todo: Vec<Vec<String>> = Vec::new();
        todo.push(here);
        assert(places(todo@) =~= seq![Seq::<Seq<char>>::empty()]);
        let found: Vec<Vec<String>> = Vec::new();
        assert(places(found@) =~= Seq::empty());
        ChildSearch { todo, found, tools }
    }

    /// The directory to list next; none where the search is at its end.
    pub fn next(&self) -> (r: Option<&Vec<String>>)
        ensures
            match r {
                Some(place) => self@.todo.len() > 0 && texts(place@) == self@.todo[0],
                None => self@.todo.len() == 0,
            },
    {
        assert(self@.todo.len() == self.todo@.len());
        if self.todo.len() == 0 {
            None
        } else {
            Some(&self.todo[0])
        }
    }

    /// Takes what the directory that was to be listed next holds.
    pub fn listed(&mut self, listed: &Vec<Listed>)
        ensures
            final(self)@ == after_listing(old(self)@, listed_view(listed@)),
    {
        assert(self@.todo.len() == self.todo@.len());
        if self.todo.len() == 0 {
            return;
        }
        let ghost start = self@;
        let ghost all = listed_view(listed@);
        let at = self.todo.remove(0);
        assert(places(self.todo@) =~= start.todo.skip(1));
        assert(texts(at@) == start.todo[0]);
        let deeper = at.len() < SEARCH_DEPTH - 1;
        assert(texts(at@).len() == at@.len());
        assert(at.len() == at@.len());
        let mut i: usize = 0;
        assert(all.take(0) =~= Seq::empty());
        while i < listed.len()
            invariant
                i <= listed@.len(),
                all == listed_view(listed@),
                texts(at@) == start.todo[0],
                deeper == (start.todo[0].len() + 1 < SEARCH_DEPTH),
                self@.tools == start.tools,
                self@.found =~= start.found + repos_at(
                    start.todo[0],
                    all.take(i as int),
                    start.tools,
                ),
                self@.todo =~= start.todo.skip(1) + if deeper {
                    dirs_at(start.todo[0], all.take(i as int), start.tools)
                } else {
                    Seq::empty()
                },
            decreases listed@.len() - i,
        {
            assert(all.take(i + 1).drop_last() =~= all.take(i as int));
            assert(all.take(i + 1).last() == listed@[i as int]@);
            let entry = &listed[i];
            if entry.is_dir && !skipped_dir(entry.name.as_str(), &self.tools) {
                if entry.is_repo {
                    let place = place_below(&at, &entry.name);
                    let ghost before = self.found@;
                    self.found.push(place);
                    assert(places(self.found@) =~= places(before).push(texts(place@)));
                }
                if deeper {
                    let place = place_below(&at, &entry.name);
                    let ghost before = self.todo@;
                    self.todo.push(place);
                    assert(places(self.todo@) =~= places(before).push(texts(place@)));
                }
            }
            i += 1;
        }
        assert(all.take(i as int) =~= all);
        assert(self@ == after_listing(start, all));
    }

    /// The directories to look for a repository in.
    pub fn found(&self) -> (r: &Vec<Vec<String>>)
        ensures
            places(r@) == self@.found,
    {
        &self.found
    }
}

// ---- What is found ----

/// The search after `n` directories were listed, where `tree` says what each holds.
pub open spec fn searched(
    tools: Seq<Seq<char>>,
    tree: spec_fn(PlaceView) -> Seq<ListedView>,
    n: nat,
) -> ChildSearchView
    decreases n,
{
    if n == 0 {
        begun(tools)
    } else {
        let s = searched(tools, tree, (n - 1) as nat);
        after_listing(s, tree(s.todo[0]))
    }
}

/// Whether directories that are not left out lead to a place.
pub open spec fn reached(
    tools: Seq<Seq<char>>,
    tree: spec_fn(PlaceView) -> Seq<ListedView>,
    place: PlaceView,
) -> bool
    decreases place.len(),
{
    place.len() == 0 || (reached(tools, tree, place.drop_last()) && dirs_at(
        place.drop_last(),
        tree(place.drop_last()),
        tools,
    ).contains(place))
}

/// Whether a directory with a `.git` that is not left out has this name in a listing.
pub open spec fn holds_repo(
    listed: Seq<ListedView>,
    name: Seq<char>,
    tools: Seq<Seq<char>>,
) -> bool {
    exists|k: int|
        0 <= k < listed.len() && entered(#[trigger] listed[k], tools) && listed[k].is_repo
            && listed[k].name == name
}

/// Whether there is a directory with a `.git` at a place, at most so many levels down, and
/// no directory on the way there is left out.
pub open spec fn repo_at(
    tools: Seq<Seq<char>>,
    tree: spec_fn(PlaceView) -> Seq<ListedView>,
    place: PlaceView,
) -> bool {
    &&& 0 < place.len() <= SEARCH_DEPTH
    &&& reached(tools, tree, place.drop_last())
    &&& holds_repo(tree(place.drop_last()), place.last(), tools)
}

proof fn lemma_dirs_at(at: PlaceView, listed: Seq<ListedView>, tools: Seq<Seq<char>>)
    ensures
        forall|p: PlaceView| #[trigger]
            dirs_at(at, listed, tools).contains(p) <==> (p.len() == at.len() + 1 && p.drop_last()
                == at && exists|k: int|
                0 <= k < listed.len() && entered(#[trigger] listed[k], tools) && listed[k].name
                    == p.last()),
    decreases listed.len(),
{
    let all = dirs_at(at, listed, tools);
    if listed.len() > 0 {
        let before = listed.drop_last();
        let less = dirs_at(at, before, tools);
        lemma_dirs_at(at, before, tools);
        let mine = at.push(listed.last().name);
        assert(mine.drop_last() =~= at);
        assert forall|p: PlaceView| #[trigger] all.contains(p) <==> (p.len() == at.len() + 1
            && p.drop_last() == at && exists|k: int|
            0 <= k < listed.len() && entered(#[trigger] listed[k], tools) && listed[k].name
                == p.last()) by {
            if all.contains(p) {
                let j = choose|j: int| 0 <= j < all.len() && all[j] == p;
                if j < less.len() {
                    assert(less[j] == p);
                    assert(less.contains(p));
                    let k = choose|k: int|
                        0 <= k < before.len() && entered(#[trigger] before[k], tools)
                            && before[k].name == p.last();
                    assert(listed[k] == before[k]);
                } else {
                    assert(p == mine);
                    assert(listed[listed.len() - 1] == listed.last());
                }
            }
            if p.len() == at.len() + 1 && p.drop_last() == at && (exists|k: int|
                0 <= k < listed.len() && entered(#[trigger] listed[k], tools) && listed[k].name
                    == p.last()) {
                let k = choose|k: int|
                    0 <= k < listed.len() && entered(#[trigger] listed[k], tools) && listed[k].name
                        == p.last();
                assert(p =~= at.push(p.last()));
                if k < before.len() {
                    assert(before[k] == listed[k]);
                    assert(less.contains(p));
                    let j = choose|j: int| 0 <= j < less.len() && less[j] == p;
                    assert(all[j] == p);
                } else {
                    assert(all[all.len() - 1] == p);
                }
            }
        }
    }
}

proof fn lemma_repos_at(at: PlaceView, listed: Seq<ListedView>, tools: Seq<Seq<char>>)
    ensures
        forall|p: PlaceView| #[trigger]
            repos_at(at, listed, tools).contains(p) <==> (p.len() == at.len() + 1 && p.drop_last()
                == at && exists|k: int|
                0 <= k < listed.len() && entered(#[trigger] listed[k], tools) && listed[k].is_repo
                    && listed[k].name == p.last()),
    decreases listed.len(),
{
    let all = repos_at(at, listed, tools);
    if listed.len() > 0 {
        let before = listed.drop_last();
        let less = repos_at(at, before, tools);
        lemma_repos_at(at, before, tools);
        let mine = at.push(listed.last().name);
        assert(mine.drop_last() =~= at);
        assert forall|p: PlaceView| #[trigger] all.contains(p) <==> (p.len() == at.len() + 1
            && p.drop_last() == at && exists|k: int|
            0 <= k < listed.len() && entered(#[trigger] listed[k], tools) && listed[k].is_repo
                && listed[k].name == p.last()) by {
            if all.contains(p) {
                let j = choose|j: int| 0 <= j < all.len() && all[j] == p;
                if j < less.len() {
                    assert(less[j] == p);
                    assert(less.contains(p));
                    let k = choose|k: int|
                        0 <= k < before.len() && entered(#[trigger] before[k], tools)
                            && before[k].is_repo && before[k].name == p.last();
                    assert(listed[k] == before[k]);
                } else {
                    assert(p == mine);
                    assert(listed[listed.len() - 1] == listed.last());
                }
            }
            if p.len() == at.len() + 1 && p.drop_last() == at && (exists|k: int|
                0 <= k < listed.len() && entered(#[trigger] listed[k], tools) && listed[k].is_repo
                    && listed[k].name == p.last()) {
                let k = choose|k: int|
                    0 <= k < listed.len() && entered(#[trigger] listed[k], tools)
                        && listed[k].is_repo && listed[k].name == p.last();
                assert(p =~= at.push(p.last()));
                if k < before.len() {
                    assert(before[k] == listed[k]);
                    assert(less.contains(p));
                    let j = choose|j: int| 0 <= j < less.len() && less[j] == p;
                    assert(all[j] == p);
                } else {
                    assert(all[all.len() - 1] == p);
                }
            }
        }
    }
}

/// How far a search is after the directory itself and `j` of those in it were listed.
proof fn lemma_searched(tools: Seq<Seq<char>>, tree: spec_fn(PlaceView) -> Seq<ListedView>, j: nat)
    requires
        j <= dirs_at(Seq::empty(), tree(Seq::empty()), tools).len(),
    ensures
        ({
            let here = Seq::<Seq<char>>::empty();
            let upper = dirs_at(here, tree(here), tools);
            let s = searched(tools, tree, 1 + j);
            &&& s.tools == tools
            &&& s.todo == upper.skip(j as int)
            &&& forall|p: PlaceView| #[trigger]
                s.found.contains(p) <==> (repos_at(here, tree(here), tools).contains(p) || exists|
                    i: int,
                |
                    0 <= i < j && repos_at(#[trigger] upper[i], tree(upper[i]), tools).contains(p))
        }),
    decreases j,
{
    let here = Seq::<Seq<char>>::empty();
    let upper = dirs_at(here, tree(here), tools);
    let s = searched(tools, tree, 1 + j);
    if j == 0 {
        let first = searched(tools, tree, 0);
        assert(first == begun(tools));
        assert(first.todo[0] =~= here);
        assert(s == after_listing(first, tree(here)));
        assert(s.todo =~= upper.skip(0));
        assert(s.found =~= repos_at(here, tree(here), tools));
    } else {
        lemma_searched(tools, tree, (j - 1) as nat);
        lemma_dirs_at(here, tree(here), tools);
        let t = searched(tools, tree, j);
        let at = upper[j - 1];
        assert(1 + (j - 1) as nat == j);
        assert(t.todo[0] == at);
        assert(upper.contains(at));
        assert(at.len() == 1);
        assert(s == after_listing(t, tree(at)));
        assert(s.todo =~= upper.skip(j as int));
        let more = repos_at(at, tree(at), tools);
        assert(s.found == t.found + more);
        assert forall|p: PlaceView| #[trigger] s.found.contains(p) <==> (repos_at(
            here,
            tree(here),
            tools,
        ).contains(p) || exists|i: int|
            0 <= i < j && repos_at(#[trigger] upper[i], tree(upper[i]), tools).contains(p)) by {
            if s.found.contains(p) {
                let k = choose|k: int| 0 <= k < s.found.len() && s.found[k] == p;
                if k < t.found.len() {
                    assert(t.found[k] == p);
                    assert(t.found.contains(p));
                } else {
                    assert(more[k - t.found.len()] == p);
                    assert(repos_at(upper[j - 1], tree(upper[j - 1]), tools).contains(p));
                }
            }
            if t.found.contains(p) {
                let k = choose|k: int| 0 <= k < t.found.len() && t.found[k] == p;
                assert(s.found[k] == p);
            }
            if more.contains(p) {
                let k = choose|k: int| 0 <= k < more.len() && more[k] == p;
                assert(s.found[t.found.len() + k] == p);
            }
            if exists|i: int|
                0 <= i < j && repos_at(#[trigger] upper[i], tree(upper[i]), tools).contains(p) {
                let i = choose|i: int|
                    0 <= i < j && repos_at(#[trigger] upper[i], tree(upper[i]), tools).contains(p);
                if i < j - 1 {
                    assert(t.found.contains(p));
                } else {
                    assert(more.contains(p));
                }
            }
        }
    }
}

/// The search ends, once the directory and those in it were listed, and finds exactly the
/// directories with a `.git` up to two levels down that no name on the way leaves out.
pub proof fn law_search_finds_the_repositories(
    tools: Seq<Seq<char>>,
    tree: spec_fn(PlaceView) -> Seq<ListedView>,
)
    ensures
        ({
            let upper = dirs_at(Seq::empty(), tree(Seq::empty()), tools);
            let s = searched(tools, tree, 1 + upper.len());
            &&& s.todo.len() == 0
            &&& forall|p: PlaceView| #[trigger] s.found.contains(p) <==> repo_at(tools, tree, p)
        }),
{
    let here = Seq::<Seq<char>>::empty();
    let upper = dirs_at(here, tree(here), tools);
    let s = searched(tools, tree, 1 + upper.len());
    lemma_searched(tools, tree, upper.len());
    lemma_dirs_at(here, tree(here), tools);
    lemma_repos_at(here, tree(here), tools);
    assert forall|p: PlaceView| #[trigger] s.found.contains(p) <==> repo_at(tools, tree, p) by {
        if repos_at(here, tree(here), tools).contains(p) {
            assert(repo_at(tools, tree, p));
        }
        if exists|i: int|
            0 <= i < upper.len() && repos_at(#[trigger] upper[i], tree(upper[i]), tools).contains(
                p,
            ) {
            let i = choose|i: int|
                0 <= i < upper.len() && repos_at(
                    #[trigger] upper[i],
                    tree(upper[i]),
                    tools,
                ).contains(p);
            lemma_repos_at(upper[i], tree(upper[i]), tools);
            assert(upper.contains(upper[i]));
            assert(upper[i].drop_last() =~= here);
            assert(reached(tools, tree, here));
            assert(reached(tools, tree, upper[i]));
            assert(repo_at(tools, tree, p));
        }
        if repo_at(tools, tree, p) {
            let at = p.drop_last();
            if p.len() == 1 {
                assert(at =~= here);
                assert(repos_at(here, tree(here), tools).contains(p));
            } else {
                assert(at.drop_last() =~= here);
                assert(upper.contains(at));
                let i = choose|i: int| 0 <= i < upper.len() && upper[i] == at;
                lemma_repos_at(at, tree(at), tools);
                assert(repos_at(upper[i], tree(upper[i]), tools).contains(p));
            }
        }
    }
}

} // verus!
