//! The drawers below the changes, and what their lines point at.

use vstd::prelude::*;

use crate::scan::{
    number, parse_number, replace, replaced, trim, trim_end, trim_start, trimmed, trimmed_end,
    trimmed_start, words, words_of, Class,
};
use crate::text::{
    after, cat3, chars_of, ends_with, eq_text, find, find_char, find_seq, find_text, has_prefix,
    has_suffix, pieces, push_all, push_text, rfind, rfind_char, slice_of, starts_with_str, text_of,
};

verus! {

/// The drawers below the changes.
#[derive(Clone, Copy, PartialEq, Eq, Debug, Structural)]
pub enum Drawer {
    Graph,
    Commits,
    FileHistory,
    Branches,
    Worktrees,
    Remotes,
    Stashes,
    Tags,
}

/// The drawers in their order.
pub open spec fn all_drawers() -> Seq<Drawer> {
    seq![
        Drawer::Graph,
        Drawer::Commits,
        Drawer::FileHistory,
        Drawer::Branches,
        Drawer::Worktrees,
        Drawer::Remotes,
        Drawer::Stashes,
        Drawer::Tags,
    ]
}

/// A drawer's place among the drawers.
pub open spec fn drawer_index(d: Drawer) -> int {
    match d {
        Drawer::Graph => 0,
        Drawer::Commits => 1,
        Drawer::FileHistory => 2,
        Drawer::Branches => 3,
        Drawer::Worktrees => 4,
        Drawer::Remotes => 5,
        Drawer::Stashes => 6,
        Drawer::Tags => 7,
    }
}

pub open spec fn drawer_title(d: Drawer) -> Seq<char> {
    match d {
        Drawer::Graph => "Graph"@,
        Drawer::Commits => "Commits"@,
        Drawer::FileHistory => "File History"@,
        Drawer::Branches => "Branches"@,
        Drawer::Worktrees => "Worktrees"@,
        Drawer::Remotes => "Remotes"@,
        Drawer::Stashes => "Stashes"@,
        Drawer::Tags => "Tags"@,
    }
}

/// Whether the files of a drawer's lines can be shown below them.
pub open spec fn has_file_tree(d: Drawer) -> bool {
    d == Drawer::Commits || d == Drawer::Branches || d == Drawer::Stashes || d == Drawer::Tags
}

impl Drawer {
    pub fn all() -> (r: Vec<Drawer>)
        ensures
            r@ == all_drawers(),
    {
        let mut v: Vec<Drawer> = Vec::new();
        v.push(Drawer::Graph);
        v.push(Drawer::Commits);
        v.push(Drawer::FileHistory);
        v.push(Drawer::Branches);
        v.push(Drawer::Worktrees);
        v.push(Drawer::Remotes);
        v.push(Drawer::Stashes);
        v.push(Drawer::Tags);
        assert(v@ =~= all_drawers());
        v
    }

    pub fn title(self) -> (r: &'static str)
        ensures
            r@ == drawer_title(self),
    {
        match self {
            Drawer::Graph => "Graph",
            Drawer::Commits => "Commits",
            Drawer::FileHistory => "File History",
            Drawer::Branches => "Branches",
            Drawer::Worktrees => "Worktrees",
            Drawer::Remotes => "Remotes",
            Drawer::Stashes => "Stashes",
            Drawer::Tags => "Tags",
        }
    }

    pub fn index(self) -> (r: usize)
        ensures
            r == drawer_index(self),
            r < 8,
            all_drawers()[r as int] == self,
    {
        match self {
            Drawer::Graph => 0,
            Drawer::Commits => 1,
            Drawer::FileHistory => 2,
            Drawer::Branches => 3,
            Drawer::Worktrees => 4,
            Drawer::Remotes => 5,
            Drawer::Stashes => 6,
            Drawer::Tags => 7,
        }
    }

    pub fn supports_file_tree(self) -> (r: bool)
        ensures
            r == has_file_tree(self),
    {
        match self {
            Drawer::Commits | Drawer::Branches | Drawer::Stashes | Drawer::Tags => true,
            _ => false,
        }
    }
}

/// What a drawer line points at, for clicks and context menus.
#[derive(PartialEq, Eq, Debug)]
pub enum DrawerRef {
    Nothing,
    /// A short commit hash.
    Commit(String),
    /// The stash with this number.
    Stash(usize),
    Branch { name: String, current: bool },
    Remote { name: String, url: String },
    Tag(String),
    /// A worktree's checkout path.
    Worktree(String),
}

#[verifier::ext_equal]
pub enum DrawerRefView {
    Nothing,
    Commit(Seq<char>),
    Stash(usize),
    Branch { name: Seq<char>, current: bool },
    Remote { name: Seq<char>, url: Seq<char> },
    Tag(Seq<char>),
    Worktree(Seq<char>),
}

impl View for DrawerRef {
    type V = DrawerRefView;

    open spec fn view(&self) -> DrawerRefView {
        match *self {
            DrawerRef::Nothing => DrawerRefView::Nothing,
            DrawerRef::Commit(h) => DrawerRefView::Commit(h@),
            DrawerRef::Stash(n) => DrawerRefView::Stash(n),
            DrawerRef::Branch { name, current } => DrawerRefView::Branch { name: name@, current },
            DrawerRef::Remote { name, url } => DrawerRefView::Remote { name: name@, url: url@ },
            DrawerRef::Tag(t) => DrawerRefView::Tag(t@),
            DrawerRef::Worktree(p) => DrawerRefView::Worktree(p@),
        }
    }
}

impl Clone for DrawerRef {
    fn clone(&self) -> (r: DrawerRef)
        ensures
            r@ == self@,
    {
        match self {
            DrawerRef::Nothing => DrawerRef::Nothing,
            DrawerRef::Commit(h) => DrawerRef::Commit(h.clone()),
            DrawerRef::Stash(n) => DrawerRef::Stash(*n),
            DrawerRef::Branch { name, current } => DrawerRef::Branch {
                name: name.clone(),
                current: *current,
            },
            DrawerRef::Remote { name, url } => DrawerRef::Remote {
                name: name.clone(),
                url: url.clone(),
            },
            DrawerRef::Tag(t) => DrawerRef::Tag(t.clone()),
            DrawerRef::Worktree(p) => DrawerRef::Worktree(p.clone()),
        }
    }
}

pub open spec fn refs_view(v: Seq<DrawerRef>) -> Seq<DrawerRefView> {
    v.map_values(|r: DrawerRef| r@)
}

impl DrawerRef {
    /// Whether both point at the same thing.
    pub fn same(&self, other: &DrawerRef) -> (r: bool)
        ensures
            r == (self@ == other@),
    {
        match (self, other) {
            (DrawerRef::Nothing, DrawerRef::Nothing) => true,
            (DrawerRef::Commit(a), DrawerRef::Commit(b)) => eq_text(a.as_str(), b.as_str()),
            (DrawerRef::Stash(a), DrawerRef::Stash(b)) => *a == *b,
            (
                DrawerRef::Branch { name: a, current: x },
                DrawerRef::Branch { name: b, current: y },
            ) => eq_text(a.as_str(), b.as_str()) && *x == *y,
            (DrawerRef::Remote { name: a, url: x }, DrawerRef::Remote { name: b, url: y }) => eq_text(
                a.as_str(),
                b.as_str(),
            ) && eq_text(x.as_str(), y.as_str()),
            (DrawerRef::Tag(a), DrawerRef::Tag(b)) => eq_text(a.as_str(), b.as_str()),
            (DrawerRef::Worktree(a), DrawerRef::Worktree(b)) => eq_text(a.as_str(), b.as_str()),
            _ => false,
        }
    }
}

// ---- Sharing with other sidebars ----

/// A drawer as other sidebars of the workspace know it.
#[derive(Clone, Copy, PartialEq, Eq, Debug, Structural)]
pub enum ScmDrawer {
    Graph,
    Commits,
    FileHistory,
    Branches,
    Worktrees,
    Remotes,
    Stashes,
    Tags,
}

/// What a drawer line points at, as other sidebars of the workspace know it.
#[derive(PartialEq, Eq, Debug)]
pub enum ScmRef {
    Nothing,
    Commit(String),
    Stash(usize),
    Branch(String),
    Remote(String),
    Tag(String),
    Worktree(String),
}

#[verifier::ext_equal]
pub enum ScmRefView {
    Nothing,
    Commit(Seq<char>),
    Stash(usize),
    Branch(Seq<char>),
    Remote(Seq<char>),
    Tag(Seq<char>),
    Worktree(Seq<char>),
}

impl View for ScmRef {
    type V = ScmRefView;

    open spec fn view(&self) -> ScmRefView {
        match *self {
            ScmRef::Nothing => ScmRefView::Nothing,
            ScmRef::Commit(h) => ScmRefView::Commit(h@),
            ScmRef::Stash(n) => ScmRefView::Stash(n),
            ScmRef::Branch(n) => ScmRefView::Branch(n@),
            ScmRef::Remote(n) => ScmRefView::Remote(n@),
            ScmRef::Tag(n) => ScmRefView::Tag(n@),
            ScmRef::Worktree(p) => ScmRefView::Worktree(p@),
        }
    }
}

impl ScmRef {
    pub fn same(&self, other: &ScmRef) -> (r: bool)
        ensures
            r == (self@ == other@),
    {
        match (self, other) {
            (ScmRef::Nothing, ScmRef::Nothing) => true,
            (ScmRef::Commit(a), ScmRef::Commit(b)) => eq_text(a.as_str(), b.as_str()),
            (ScmRef::Stash(a), ScmRef::Stash(b)) => *a == *b,
            (ScmRef::Branch(a), ScmRef::Branch(b)) => eq_text(a.as_str(), b.as_str()),
            (ScmRef::Remote(a), ScmRef::Remote(b)) => eq_text(a.as_str(), b.as_str()),
            (ScmRef::Tag(a), ScmRef::Tag(b)) => eq_text(a.as_str(), b.as_str()),
            (ScmRef::Worktree(a), ScmRef::Worktree(b)) => eq_text(a.as_str(), b.as_str()),
            _ => false,
        }
    }
}

pub open spec fn synced_drawer(d: Drawer) -> ScmDrawer {
    match d {
        Drawer::Graph => ScmDrawer::Graph,
        Drawer::Commits => ScmDrawer::Commits,
        Drawer::FileHistory => ScmDrawer::FileHistory,
        Drawer::Branches => ScmDrawer::Branches,
        Drawer::Worktrees => ScmDrawer::Worktrees,
        Drawer::Remotes => ScmDrawer::Remotes,
        Drawer::Stashes => ScmDrawer::Stashes,
        Drawer::Tags => ScmDrawer::Tags,
    }
}

pub fn sync_drawer(drawer: Drawer) -> (r: ScmDrawer)
    ensures
        r == synced_drawer(drawer),
{
    match drawer {
        Drawer::Graph => ScmDrawer::Graph,
        Drawer::Commits => ScmDrawer::Commits,
        Drawer::FileHistory => ScmDrawer::FileHistory,
        Drawer::Branches => ScmDrawer::Branches,
        Drawer::Worktrees => ScmDrawer::Worktrees,
        Drawer::Remotes => ScmDrawer::Remotes,
        Drawer::Stashes => ScmDrawer::Stashes,
        Drawer::Tags => ScmDrawer::Tags,
    }
}

/// The drawer that other sidebars know as this one.
pub fn app_drawer(drawer: ScmDrawer) -> (r: Drawer)
    ensures
        synced_drawer(r) == drawer,
{
    match drawer {
        ScmDrawer::Graph => Drawer::Graph,
        ScmDrawer::Commits => Drawer::Commits,
        ScmDrawer::FileHistory => Drawer::FileHistory,
        ScmDrawer::Branches => Drawer::Branches,
        ScmDrawer::Worktrees => Drawer::Worktrees,
        ScmDrawer::Remotes => Drawer::Remotes,
        ScmDrawer::Stashes => Drawer::Stashes,
        ScmDrawer::Tags => Drawer::Tags,
    }
}

pub open spec fn synced_ref(r: DrawerRefView) -> ScmRefView {
    match r {
        DrawerRefView::Nothing => ScmRefView::Nothing,
        DrawerRefView::Commit(h) => ScmRefView::Commit(h),
        DrawerRefView::Stash(n) => ScmRefView::Stash(n),
        DrawerRefView::Branch { name, .. } => ScmRefView::Branch(name),
        DrawerRefView::Remote { name, .. } => ScmRefView::Remote(name),
        DrawerRefView::Tag(n) => ScmRefView::Tag(n),
        DrawerRefView::Worktree(p) => ScmRefView::Worktree(p),
    }
}

pub fn sync_ref(target: &DrawerRef) -> (r: ScmRef)
    ensures
        r@ == synced_ref(target@),
{
    match target {
        DrawerRef::Nothing => ScmRef::Nothing,
        DrawerRef::Commit(hash) => ScmRef::Commit(hash.clone()),
        DrawerRef::Stash(index) => ScmRef::Stash(*index),
        DrawerRef::Branch { name, .. } => ScmRef::Branch(name.clone()),
        DrawerRef::Remote { name, .. } => ScmRef::Remote(name.clone()),
        DrawerRef::Tag(name) => ScmRef::Tag(name.clone()),
        DrawerRef::Worktree(path) => ScmRef::Worktree(path.clone()),
    }
}

/// A drawer is known to other sidebars under one name only.
pub proof fn law_drawers_keep_their_identity(a: Drawer, b: Drawer)
    ensures
        synced_drawer(a) == synced_drawer(b) <==> a == b,
        drawer_index(a) == drawer_index(b) <==> a == b,
{
}

// ---- Reading lines ----

/// The word at `i`, or nothing.
pub open spec fn word_at(line: Seq<char>, i: int) -> Seq<char> {
    if i < words(line).len() {
        words(line)[i]
    } else {
        Seq::empty()
    }
}

fn word(line: &[char], i: usize) -> (r: Vec<char>)
    ensures
        r@ == word_at(line@, i as int),
{
    let all = words_of(line);
    let ghost w = pieces(all@);
    assert(w.len() == all@.len());
    if i < all.len() {
        let one = slice_of(&all[i], 0, all[i].len());
        assert(one@ =~= w[i as int]);
        one
    } else {
        let none: Vec<char> = Vec::new();
        assert(none@ =~= Seq::empty());
        none
    }
}

/// A lower-case hexadecimal digit.
pub open spec fn is_hash_char(c: char) -> bool {
    ('0' <= c && c <= '9') || ('a' <= c && c <= 'f')
}

/// Whether a word can be a commit's hash: seven hexadecimal digits or more.
pub open spec fn is_hash(word: Seq<char>) -> bool {
    word.len() >= 7 && forall|i: int| 0 <= i < word.len() ==> is_hash_char(#[trigger] word[i])
}

/// The first word at or after `i` that can be a hash, or the number of words.
pub open spec fn hash_at(words: Seq<Seq<char>>, i: int) -> int
    decreases words.len() - i,
{
    if i >= words.len() {
        words.len() as int
    } else if is_hash(words[i]) {
        i
    } else {
        hash_at(words, i + 1)
    }
}

fn looks_like_hash(word: &[char]) -> (r: bool)
    ensures
        r == is_hash(word@),
{
    if word.len() < 7 {
        return false;
    }
    let mut i: usize = 0;
    while i < word.len()
        invariant
            i <= word@.len(),
            forall|k: int| 0 <= k < i ==> is_hash_char(#[trigger] word@[k]),
        decreases word@.len() - i,
    {
        let c = word[i];
        if !(('0' <= c && c <= '9') || ('a' <= c && c <= 'f')) {
            assert(!is_hash_char(word@[i as int]));
            return false;
        }
        i += 1;
    }
    true
}

fn first_hash(line: &[char]) -> (r: DrawerRef)
    ensures
        r@ == commit_in(line@),
{
    let all = words_of(line);
    let ghost w = pieces(all@);
    let mut i: usize = 0;
    while i < all.len()
        invariant
            i <= all@.len(),
            w == pieces(all@),
            w == words(line@),
            hash_at(w, 0) == hash_at(w, i as int),
        decreases all@.len() - i,
    {
        assert(w[i as int] == all@[i as int]@);
        if looks_like_hash(&all[i]) {
            return DrawerRef::Commit(text_of(&all[i]));
        }
        i += 1;
    }
    DrawerRef::Nothing
}

pub open spec fn commit_in(line: Seq<char>) -> DrawerRefView {
    let w = words(line);
    let i = hash_at(w, 0);
    if i < w.len() {
        DrawerRefView::Commit(w[i])
    } else {
        DrawerRefView::Nothing
    }
}

/// Whether a text names nothing: it is empty, or a remark in brackets.
pub open spec fn no_name(s: Seq<char>) -> bool {
    s.len() == 0 || s[0] == '('
}

/// The number of the stash that a line begins with.
pub open spec fn stash_number(line: Seq<char>) -> Option<usize> {
    let p = "stash@{"@;
    if has_prefix(line, p) {
        let rest = after(line, p.len() as int);
        number(rest.take(find_char(rest, '}', 0)))
    } else {
        None
    }
}

/// What a line of a drawer points at.
pub open spec fn pointed_at(kind: Drawer, line: Seq<char>) -> DrawerRefView {
    match kind {
        Drawer::Graph | Drawer::Commits | Drawer::FileHistory => commit_in(line),
        Drawer::Branches => {
            let name = trim(trim_start(line, Class::One('*')), Class::White);
            if no_name(name) {
                DrawerRefView::Nothing
            } else {
                DrawerRefView::Branch { name, current: line.len() > 0 && line[0] == '*' }
            }
        },
        Drawer::Remotes => if words(line).len() > 0 {
            DrawerRefView::Remote { name: words(line)[0], url: word_at(line, 1) }
        } else {
            DrawerRefView::Nothing
        },
        Drawer::Worktrees => if no_name(word_at(line, 0)) {
            DrawerRefView::Nothing
        } else {
            DrawerRefView::Worktree(word_at(line, 0))
        },
        Drawer::Stashes => match stash_number(line) {
            Some(n) => DrawerRefView::Stash(n),
            None => DrawerRefView::Nothing,
        },
        Drawer::Tags => {
            let name = trim(line, Class::White);
            if no_name(name) {
                DrawerRefView::Nothing
            } else {
                DrawerRefView::Tag(name)
            }
        },
    }
}

fn names_nothing(s: &[char]) -> (r: bool)
    ensures
        r == no_name(s@),
{
    s.len() == 0 || s[0] == '('
}

fn read_stash(line: &[char]) -> (r: Option<usize>)
    ensures
        r == stash_number(line@),
{
    if !starts_with_str(line, "stash@{") {
        return None;
    }
    let p = chars_of("stash@{");
    let rest = slice_of(line, p.len(), line.len());
    let end = find(&rest, '}', 0);
    let digits = slice_of(&rest, 0, end);
    assert(digits@ =~= rest@.take(end as int));
    parse_number(&digits)
}

/// What a line of a drawer points at.
pub fn parse_drawer_ref(kind: Drawer, line: &str) -> (r: DrawerRef)
    ensures
        r@ == pointed_at(kind, line@),
{
    let v = chars_of(line);
    match kind {
        Drawer::Graph | Drawer::Commits | Drawer::FileHistory => first_hash(&v),
        Drawer::Branches => {
            let name = trimmed(&trimmed_start(&v, Class::One('*')), Class::White);
            if names_nothing(&name) {
                DrawerRef::Nothing
            } else {
                DrawerRef::Branch { name: text_of(&name), current: v.len() > 0 && v[0] == '*' }
            }
        },
        Drawer::Remotes => {
            let all = words_of(&v);
            assert(pieces(all@).len() == all@.len());
            if all.len() > 0 {
                DrawerRef::Remote { name: text_of(&all[0]), url: text_of(&word(&v, 1)) }
            } else {
                DrawerRef::Nothing
            }
        },
        Drawer::Worktrees => {
            let path = word(&v, 0);
            if names_nothing(&path) {
                DrawerRef::Nothing
            } else {
                DrawerRef::Worktree(text_of(&path))
            }
        },
        Drawer::Stashes => match read_stash(&v) {
            Some(n) => DrawerRef::Stash(n),
            None => DrawerRef::Nothing,
        },
        Drawer::Tags => {
            let name = trimmed(&v, Class::White);
            if names_nothing(&name) {
                DrawerRef::Nothing
            } else {
                DrawerRef::Tag(text_of(&name))
            }
        },
    }
}

// ---- Shown lines ----

/// What comes after the last slash or backslash.
pub open spec fn last_folder(path: Seq<char>) -> Seq<char> {
    let a = rfind_char(path, '/', path.len() as int);
    let b = rfind_char(path, '\\', path.len() as int);
    after(path, if a > b {
        a + 1
    } else {
        b + 1
    })
}

fn folder_of(path: &[char]) -> (r: Vec<char>)
    ensures
        r@ == last_folder(path@),
{
    let total = path.len();
    let a = match rfind(path, '/') {
        Some(i) => i + 1,
        None => 0,
    };
    let b = match rfind(path, '\\') {
        Some(i) => i + 1,
        None => 0,
    };
    let start = if a > b {
        a
    } else {
        b
    };
    slice_of(path, start, total)
}

/// A worktree's line as it is shown: the name of its folder and its branch.
pub open spec fn shown_worktree(raw: Seq<char>) -> Seq<char> {
    let name = last_folder(word_at(raw, 0));
    let start = find_char(raw, '[', 0);
    let end = rfind_char(raw, ']', raw.len() as int);
    if start < raw.len() && start < end {
        name + "  ⎇ "@ + raw.subrange(start + 1, end)
    } else if find_seq(raw, "(bare)"@, 0) >= 0 {
        name + "  (bare)"@
    } else if find_seq(raw, "detached"@, 0) >= 0 {
        name + "  (detached)"@
    } else {
        name
    }
}

pub fn pretty_worktree_line(raw: &str) -> (r: String)
    ensures
        r@ == shown_worktree(raw@),
{
    let v = chars_of(raw);
    let mut name = folder_of(&word(&v, 0));
    let start = find(&v, '[', 0);
    let end = rfind(&v, ']');
    if let Some(end) = end {
        if start < v.len() && start < end {
            push_text(&mut name, "  ⎇ ");
            let branch = slice_of(&v, start + 1, end);
            push_all(&mut name, &branch);
            return text_of(&name);
        }
    }
    let bare = chars_of("(bare)");
    let detached = chars_of("detached");
    if find_text(&v, &bare, 0).is_some() {
        push_text(&mut name, "  (bare)");
    } else if find_text(&v, &detached, 0).is_some() {
        push_text(&mut name, "  (detached)");
    }
    text_of(&name)
}

/// `s` without each `.git` at its end.
pub open spec fn without_git(s: Seq<char>) -> Seq<char>
    decreases s.len(),
{
    let p = ".git"@;
    if p.len() > 0 && has_suffix(s, p) {
        without_git(s.take(s.len() - p.len()))
    } else {
        s
    }
}

fn cut_git(v: Vec<char>) -> (r: Vec<char>)
    ensures
        r@ == without_git(v@),
{
    let p = chars_of(".git");
    proof {
        reveal_strlit(".git");
    }
    let mut v = v;
    let ghost whole = v@;
    while ends_with(&v, &p)
        invariant
            p@ == ".git"@,
            p@.len() == 4,
            without_git(whole) == without_git(v@),
        decreases v@.len(),
    {
        let n = v.len() - p.len();
        let cut = slice_of(&v, 0, n);
        assert(cut@ =~= v@.take(v@.len() - p@.len()));
        v = cut;
    }
    v
}

/// A remote's address without its host: the owner and the repository; of a local
/// path, the name of its folder.
pub open spec fn shown_url(url: Seq<char>) -> Seq<char> {
    let trimmed = without_git(trim_end(url, Class::One('/')));
    let scheme = find_seq(trimmed, "://"@, 0);
    let hosted = if scheme >= 0 {
        Some(after(trimmed, scheme + "://"@.len()))
    } else if has_prefix(trimmed, "git@"@) {
        Some(after(trimmed, "git@"@.len() as int))
    } else {
        None
    };
    match hosted {
        Some(rest) => {
            let flat = replaced(rest, ':', '/');
            let slash = find_char(flat, '/', 0);
            if slash + 1 < flat.len() {
                after(flat, slash + 1)
            } else {
                flat
            }
        },
        None => last_folder(trimmed),
    }
}

fn without_host(rest: &[char]) -> (r: Vec<char>)
    ensures
        r@ == ({
            let flat = replaced(rest@, ':', '/');
            let slash = find_char(flat, '/', 0);
            if slash + 1 < flat.len() {
                after(flat, slash + 1)
            } else {
                flat
            }
        }),
{
    let flat = replace(rest, ':', '/');
    let slash = find(&flat, '/', 0);
    let total = flat.len();
    if slash < total && slash + 1 < total {
        slice_of(&flat, slash + 1, total)
    } else {
        flat
    }
}

pub fn pretty_remote_url(url: &str) -> (r: String)
    ensures
        r@ == shown_url(url@),
{
    let v = cut_git(trimmed_end(&chars_of(url), Class::One('/')));
    let scheme = chars_of("://");
    let total = v.len();
    if let Some(i) = find_text(&v, &scheme, 0) {
        let rest = slice_of(&v, i + scheme.len(), total);
        return text_of(&without_host(&rest));
    }
    if starts_with_str(&v, "git@") {
        let p = chars_of("git@");
        let rest = slice_of(&v, p.len(), total);
        return text_of(&without_host(&rest));
    }
    text_of(&folder_of(&v))
}

/// A remote's line as it is shown: its name, and its address without the host.
pub open spec fn shown_remote(raw: Seq<char>) -> Seq<char> {
    if words(raw).len() >= 2 {
        words(raw)[0] + "  "@ + shown_url(words(raw)[1])
    } else {
        raw
    }
}

pub fn pretty_remote_line(raw: &str) -> (r: String)
    ensures
        r@ == shown_remote(raw@),
{
    let v = chars_of(raw);
    let all = words_of(&v);
    let ghost w = pieces(all@);
    assert(w.len() == all@.len());
    if all.len() >= 2 {
        assert(w[0] == all@[0]@ && w[1] == all@[1]@);
        let name = text_of(&all[0]);
        let url = pretty_remote_url(text_of(&all[1]).as_str());
        cat3(name.as_str(), "  ", url.as_str())
    } else {
        raw.to_string()
    }
}

} // verus!
