//! Git output and git commands: parsing of `status`, `numstat`, `name-status`
//! and history listings, and the command sequences behind each operation.
//! Commands are named here and run by the caller, which hands the replies back.

use vstd::prelude::*;
use vstd::hash_map::StringHashMap;

use crate::paths::{path_key, path_less};
use crate::scan::{
    char_bytes, digits, digits_of, law_order_is_irreflexive, law_order_is_transitive, lex_less,
    lines, lines_of, number, parse_number, replace, trim, trim_end, trim_start, trimmed,
    trimmed_end, trimmed_start, utf8_len, utf8_width, words, words_of, Class,
};
use crate::sort::{keys_view, precedes, sorted_order, sorted_places, SortKey, SortKeyView};
use crate::text::{
    after, at, chars_of, find, find_char, find_seq, find_text, has_prefix, dedupe, ends_with,
    eq_text, has_suffix, law_dedupe, lemma_split_after, opt_text, pieces, push_all, push_new,
    push_text, rfind, rfind_char, same, slice_of, split, split_on, starts_with, text_of, text_slice, texts,
};

verus! {

/// The tree without files, which a root commit is compared with.
pub const EMPTY_TREE: &'static str = "4b825dc642cb6eb9a060e54bf8d69288fbee4904";

/// Text-line counts of one change; `None` where git reports binary or unknown.
#[derive(Clone, Copy, Debug, PartialEq, Eq, Structural)]
pub struct DiffStat {
    pub added: Option<usize>,
    pub deleted: Option<usize>,
}

/// No counts known.
pub open spec fn no_stat() -> DiffStat {
    DiffStat { added: None, deleted: None }
}

impl Default for DiffStat {
    fn default() -> (r: DiffStat)
        ensures
            r == no_stat(),
    {
        DiffStat { added: None, deleted: None }
    }
}

/// One file in the staged or unstaged list.
#[derive(Debug, PartialEq, Eq)]
pub struct FileEntry {
    /// Repo-relative path (the new path, for renames), `/`-separated.
    pub path: String,
    /// Rename or copy source, when there is one.
    pub orig: Option<String>,
    /// M, A, D, R, C, U (untracked), or `!` for merge conflicts.
    pub letter: char,
    pub stat: DiffStat,
}

/// What a [`FileEntry`] holds.
#[verifier::ext_equal]
pub struct EntryView {
    pub path: Seq<char>,
    pub orig: Option<Seq<char>>,
    pub letter: char,
    pub stat: DiffStat,
}

impl View for FileEntry {
    type V = EntryView;

    open spec fn view(&self) -> EntryView {
        EntryView {
            path: self.path@,
            orig: opt_text(self.orig),
            letter: self.letter,
            stat: self.stat,
        }
    }
}

/// The views of a list of entries.
pub open spec fn entries(v: Seq<FileEntry>) -> Seq<EntryView> {
    v.map_values(|e: FileEntry| e@)
}

pub fn copy_opt(v: &Option<String>) -> (r: Option<String>)
    ensures
        opt_text(r) == opt_text(*v),
{
    match v {
        Some(s) => Some(s.clone()),
        None => None,
    }
}

impl Clone for FileEntry {
    fn clone(&self) -> (r: FileEntry)
        ensures
            r@ == self@,
    {
        FileEntry {
            path: self.path.clone(),
            orig: copy_opt(&self.orig),
            letter: self.letter,
            stat: self.stat,
        }
    }
}

/// A historical file plus the revision pair its diff compares.
#[derive(Debug, PartialEq, Eq)]
pub struct RefFile {
    pub entry: FileEntry,
    pub old_spec: String,
    pub new_spec: String,
}

#[verifier::ext_equal]
pub struct RefFileView {
    pub entry: EntryView,
    pub old_spec: Seq<char>,
    pub new_spec: Seq<char>,
}

impl View for RefFile {
    type V = RefFileView;

    open spec fn view(&self) -> RefFileView {
        RefFileView { entry: self.entry@, old_spec: self.old_spec@, new_spec: self.new_spec@ }
    }
}

impl Clone for RefFile {
    fn clone(&self) -> (r: RefFile)
        ensures
            r@ == self@,
    {
        RefFile {
            entry: self.entry.clone(),
            old_spec: self.old_spec.clone(),
            new_spec: self.new_spec.clone(),
        }
    }
}

pub open spec fn ref_files_view(v: Seq<RefFile>) -> Seq<RefFileView> {
    v.map_values(|e: RefFile| e@)
}

/// One line of a file's history and the file as it was then.
#[derive(Debug, PartialEq, Eq)]
pub struct FileHistoryEntry {
    pub line: String,
    pub file: RefFile,
}

#[verifier::ext_equal]
pub struct HistoryView {
    pub line: Seq<char>,
    pub file: RefFileView,
}

impl View for FileHistoryEntry {
    type V = HistoryView;

    open spec fn view(&self) -> HistoryView {
        HistoryView { line: self.line@, file: self.file@ }
    }
}

pub open spec fn history_view(v: Seq<FileHistoryEntry>) -> Seq<HistoryView> {
    v.map_values(|e: FileHistoryEntry| e@)
}

/// A repository's changes and its branch's relation to the upstream.
#[derive(Debug, PartialEq)]
pub struct Status {
    pub branch: String,
    pub staged: Vec<FileEntry>,
    pub unstaged: Vec<FileEntry>,
    pub ahead: usize,
    pub behind: usize,
    /// Whether the branch has an upstream at all.
    pub has_upstream: bool,
}

#[verifier::ext_equal]
pub struct StatusView {
    pub branch: Seq<char>,
    pub staged: Seq<EntryView>,
    pub unstaged: Seq<EntryView>,
    pub ahead: usize,
    pub behind: usize,
    pub has_upstream: bool,
}

impl View for Status {
    type V = StatusView;

    open spec fn view(&self) -> StatusView {
        StatusView {
            branch: self.branch@,
            staged: entries(self.staged@),
            unstaged: entries(self.unstaged@),
            ahead: self.ahead,
            behind: self.behind,
            has_upstream: self.has_upstream,
        }
    }
}

/// The status of a repository that nothing is known of.
pub open spec fn no_status() -> StatusView {
    StatusView {
        branch: Seq::empty(),
        staged: Seq::empty(),
        unstaged: Seq::empty(),
        ahead: 0,
        behind: 0,
        has_upstream: false,
    }
}

impl Default for Status {
    fn default() -> (r: Status)
        ensures
            r@ == no_status(),
    {
        let r = Status {
            branch: String::new(),
            staged: Vec::new(),
            unstaged: Vec::new(),
            ahead: 0,
            behind: 0,
            has_upstream: false,
        };
        assert(entries(r.staged@) =~= Seq::empty());
        assert(entries(r.unstaged@) =~= Seq::empty());
        r
    }
}

// ---- Status ----

/// Type changes (T) read as plain modifications.
pub open spec fn shown_letter(c: char) -> char {
    if c == 'T' {
        'M'
    } else {
        c
    }
}

pub fn display_letter(c: char) -> (r: char)
    ensures
        r == shown_letter(c),
{
    if c == 'T' {
        'M'
    } else {
        c
    }
}

/// The index and worktree states that mean an unmerged path.
pub open spec fn conflicting(x: char, y: char) -> bool {
    ||| x == 'D' && y == 'D'
    ||| x == 'A' && y == 'U'
    ||| x == 'U' && y == 'D'
    ||| x == 'U' && y == 'A'
    ||| x == 'D' && y == 'U'
    ||| x == 'A' && y == 'A'
    ||| x == 'U' && y == 'U'
}

pub fn is_conflict(x: char, y: char) -> (r: bool)
    ensures
        r == conflicting(x, y),
{
    match (x, y) {
        ('D', 'D') => true,
        ('A', 'U') => true,
        ('U', 'D') => true,
        ('U', 'A') => true,
        ('D', 'U') => true,
        ('A', 'A') => true,
        ('U', 'U') => true,
        _ => false,
    }
}

/// The state letters and the path of one porcelain entry. The letters are the
/// entry's first two bytes, each read as one character, and the third byte is
/// a space.
pub open spec fn entry_parts(s: Seq<char>) -> Option<(char, char, Seq<char>)> {
    if s.len() >= 4 && utf8_width(s[0]) == 1 && utf8_width(s[1]) == 1 && s[2] == ' ' {
        Some((s[0], s[1], after(s, 3)))
    } else if s.len() >= 3 && utf8_width(s[0]) == 2 && s[1] == ' ' {
        Some(
            (
                (0xc0 + s[0] as u32 / 64) as char,
                (0x80 + s[0] as u32 % 64) as char,
                after(s, 2),
            ),
        )
    } else {
        None
    }
}

pub fn split_entry(s: &[char]) -> (r: Option<((char, char), Vec<char>)>)
    ensures
        match r {
            Some(((x, y), path)) => entry_parts(s@) == Some((x, y, path@)),
            None => entry_parts(s@) is None,
        },
{
    if s.len() >= 4 && char_bytes(s[0]) == 1 && char_bytes(s[1]) == 1 && s[2] == ' ' {
        Some(((s[0], s[1]), slice_of(s, 3, s.len())))
    } else if s.len() >= 3 && char_bytes(s[0]) == 2 && s[1] == ' ' {
        let n = s[0] as u32;
        let x = (0xc0u32 + n / 64) as u8 as char;
        let y = (0x80u32 + n % 64) as u8 as char;
        Some(((x, y), slice_of(s, 2, s.len())))
    } else {
        None
    }
}

/// The branch that a header names: what stands before `...`, less the words
/// that announce an unborn branch.
pub open spec fn header_branch(header: Seq<char>) -> Seq<char> {
    let dots = find_seq(header, "..."@, 0);
    let head = if dots < 0 {
        header
    } else {
        header.take(dots)
    };
    if has_prefix(head, "No commits yet on "@) {
        after(head, "No commits yet on "@.len() as int)
    } else {
        head
    }
}

pub fn parse_branch(header: &[char]) -> (r: String)
    ensures
        r@ == header_branch(header@),
{
    let dots = chars_of("...");
    let end = match find_text(header, &dots, 0) {
        Some(i) => i,
        None => header.len(),
    };
    let head = slice_of(header, 0, end);
    proof {
        if find_seq(header@, "..."@, 0) < 0 {
            assert(head@ =~= header@);
        } else {
            assert(head@ =~= header@.take(end as int));
        }
    }
    let unborn = chars_of("No commits yet on ");
    if starts_with(&head, &unborn) {
        text_slice(&head, unborn.len(), head.len())
    } else {
        text_of(&head)
    }
}

/// The number after `tag` in the first of `parts` that begins with it, or 0.
pub open spec fn count_tagged(parts: Seq<Seq<char>>, tag: Seq<char>) -> usize
    decreases parts.len(),
{
    if parts.len() == 0 {
        0
    } else {
        let part = trim(parts[0], Class::White);
        if has_prefix(part, tag) {
            match number(trim(after(part, tag.len() as int), Class::White)) {
                Some(n) => n,
                None => 0,
            }
        } else {
            count_tagged(parts.subrange(1, parts.len() as int), tag)
        }
    }
}

/// How far ahead and behind a header's last bracket says the branch is.
pub open spec fn header_counts(header: Seq<char>) -> (usize, usize) {
    let open = rfind_char(header, '[', header.len() as int);
    if open < 0 {
        (0, 0)
    } else {
        let parts = split(trim_end(after(header, open + 1), Class::One(']')), ',');
        (count_tagged(parts, "ahead "@), count_tagged(parts, "behind "@))
    }
}

fn count_after(parts: &Vec<Vec<char>>, tag: &str) -> (r: usize)
    ensures
        r == count_tagged(pieces(parts@), tag@),
{
    let want = chars_of(tag);
    let mut i: usize = 0;
    let ghost all = pieces(parts@);
    assert(all.subrange(0, all.len() as int) =~= all);
    while i < parts.len()
        invariant
            i <= parts@.len(),
            all == pieces(parts@),
            want@ == tag@,
            count_tagged(all, tag@) == count_tagged(all.subrange(i as int, all.len() as int), tag@),
        decreases parts@.len() - i,
    {
        let ghost rest = all.subrange(i as int, all.len() as int);
        let part = trimmed(&parts[i], Class::White);
        assert(rest[0] == parts@[i as int]@);
        if starts_with(&part, &want) {
            let tail = slice_of(&part, want.len(), part.len());
            let tail = trimmed(&tail, Class::White);
            return match parse_number(&tail) {
                Some(n) => n,
                None => 0,
            };
        }
        assert(rest.subrange(1, rest.len() as int) =~= all.subrange(i + 1, all.len() as int));
        i += 1;
    }
    0
}

pub fn parse_ahead_behind(header: &[char]) -> (r: (usize, usize))
    ensures
        r == header_counts(header@),
{
    let open = match rfind(header, '[') {
        Some(i) => i,
        None => {
            return (0, 0);
        },
    };
    let end = header.len();
    let bracket = slice_of(header, open + 1, end);
    let bracket = trimmed_end(&bracket, Class::One(']'));
    let parts = split_on(&bracket, ',');
    (count_after(&parts, "ahead "), count_after(&parts, "behind "))
}

/// One unit of porcelain output: the branch header, or a changed path with its
/// index state, worktree state and rename source.
#[verifier::ext_equal]
pub enum Record {
    Header(Seq<char>),
    Entry { x: char, y: char, path: Seq<char>, orig: Option<Seq<char>> },
}

/// Whether a state letter says that a source path follows.
pub open spec fn moves(c: char) -> bool {
    c == 'R' || c == 'C'
}

/// The `i`-th part where there is one and it is not empty.
pub open spec fn named(parts: Seq<Seq<char>>, i: int) -> Option<Seq<char>> {
    if 0 <= i < parts.len() && parts[i].len() > 0 {
        Some(parts[i])
    } else {
        None
    }
}

/// The records of NUL-separated porcelain parts from position `i` on. A rename
/// or copy takes the following part as its source.
pub open spec fn records(parts: Seq<Seq<char>>, i: int) -> Seq<Record>
    decreases parts.len() + 1 - i,
{
    if i < 0 || i >= parts.len() {
        Seq::empty()
    } else if has_prefix(parts[i], "## "@) {
        seq![Record::Header(after(parts[i], 3))] + records(parts, i + 1)
    } else {
        match entry_parts(parts[i]) {
            None => records(parts, i + 1),
            Some((x, y, path)) => if moves(x) || moves(y) {
                seq![Record::Entry { x, y, path, orig: named(parts, i + 1) }] + records(parts, i + 2)
            } else {
                seq![Record::Entry { x, y, path, orig: None }] + records(parts, i + 1)
            },
        }
    }
}

/// The staged entry that a record gives rise to: a tracked, unconflicted path
/// whose index state is not blank.
pub open spec fn staged_of(r: Record) -> Option<EntryView> {
    match r {
        Record::Entry { x, y, path, orig } if x != ' ' && x != '!' && !(x == '?' && y == '?')
            && !conflicting(x, y) => Some(
            EntryView { path, orig, letter: shown_letter(x), stat: no_stat() },
        ),
        _ => None,
    }
}

/// The unstaged entry that a record gives rise to: an untracked path, a
/// conflict, or a path whose worktree state is not blank.
pub open spec fn unstaged_of(r: Record) -> Option<EntryView> {
    match r {
        Record::Entry { x, y, path, orig } => if x == '?' && y == '?' {
            Some(EntryView { path, orig: None, letter: 'U', stat: no_stat() })
        } else if x == '!' {
            None
        } else if conflicting(x, y) {
            Some(EntryView { path, orig, letter: '!', stat: no_stat() })
        } else if y != ' ' {
            Some(EntryView { path, orig, letter: shown_letter(y), stat: no_stat() })
        } else {
            None
        },
        _ => None,
    }
}

pub open spec fn staged_list(rs: Seq<Record>) -> Seq<EntryView>
    decreases rs.len(),
{
    if rs.len() == 0 {
        Seq::empty()
    } else {
        match staged_of(rs.last()) {
            Some(e) => staged_list(rs.drop_last()).push(e),
            None => staged_list(rs.drop_last()),
        }
    }
}

pub open spec fn unstaged_list(rs: Seq<Record>) -> Seq<EntryView>
    decreases rs.len(),
{
    if rs.len() == 0 {
        Seq::empty()
    } else {
        match unstaged_of(rs.last()) {
            Some(e) => unstaged_list(rs.drop_last()).push(e),
            None => unstaged_list(rs.drop_last()),
        }
    }
}

/// The last header among the records.
pub open spec fn last_header(rs: Seq<Record>) -> Option<Seq<char>>
    decreases rs.len(),
{
    if rs.len() == 0 {
        None
    } else {
        match rs.last() {
            Record::Header(h) => Some(h),
            _ => last_header(rs.drop_last()),
        }
    }
}

/// The status that a sequence of records describes.
pub open spec fn status_of(rs: Seq<Record>) -> StatusView {
    let base = no_status();
    let header = last_header(rs);
    StatusView {
        branch: match header {
            Some(h) => header_branch(h),
            None => base.branch,
        },
        staged: staged_list(rs),
        unstaged: unstaged_list(rs),
        ahead: match header {
            Some(h) => header_counts(h).0,
            None => 0,
        },
        behind: match header {
            Some(h) => header_counts(h).1,
            None => 0,
        },
        has_upstream: match header {
            Some(h) => find_seq(h, "..."@, 0) >= 0,
            None => false,
        },
    }
}

/// Whether, from position `i` on, every rename or copy among the parts is followed by
/// its source.
pub open spec fn sources_follow(parts: Seq<Seq<char>>, i: int) -> bool
    decreases parts.len() + 1 - i,
{
    if i < 0 || i >= parts.len() {
        true
    } else if has_prefix(parts[i], "## "@) {
        sources_follow(parts, i + 1)
    } else {
        match entry_parts(parts[i]) {
            None => sources_follow(parts, i + 1),
            Some((x, y, _)) => if moves(x) || moves(y) {
                i + 1 < parts.len() && sources_follow(parts, i + 2)
            } else {
                sources_follow(parts, i + 1)
            },
        }
    }
}

proof fn lemma_records_shift(p: Seq<Seq<char>>, q: Seq<Seq<char>>, k: int)
    requires
        0 <= k,
    ensures
        records(p + q, p.len() + k) == records(q, k),
    decreases q.len() + 1 - k,
{
    if k < q.len() {
        assert((p + q)[p.len() + k] == q[k]);
        if k + 1 < q.len() {
            assert((p + q)[p.len() + k + 1] == q[k + 1]);
        }
        assert(named(p + q, p.len() + k + 1) == named(q, k + 1));
        lemma_records_shift(p, q, k + 1);
        lemma_records_shift(p, q, k + 2);
    }
}

proof fn lemma_entry_add(
    p: Seq<Seq<char>>,
    q: Seq<Seq<char>>,
    i: int,
    x: char,
    y: char,
    path: Seq<char>,
)
    requires
        0 <= i < p.len(),
        !has_prefix(p[i], "## "@),
        entry_parts(p[i]) == Some((x, y, path)),
        moves(x) || moves(y) ==> i + 1 < p.len() && records(p + q, i + 2) == records(p, i + 2)
            + records(q, 0),
        !(moves(x) || moves(y)) ==> records(p + q, i + 1) == records(p, i + 1) + records(q, 0),
    ensures
        records(p + q, i) == records(p, i) + records(q, 0),
{
    assert((p + q)[i] == p[i]);
    let tail = records(q, 0);
    if moves(x) || moves(y) {
        assert((p + q)[i + 1] == p[i + 1]);
        let orig = named(p, i + 1);
        lemma_records_entry(p, i, x, y, path, orig);
        lemma_records_entry(p + q, i, x, y, path, orig);
        let head = seq![Record::Entry { x, y, path, orig }];
        assert(head + (records(p, i + 2) + tail) =~= (head + records(p, i + 2)) + tail);
    } else {
        lemma_records_entry(p, i, x, y, path, None);
        lemma_records_entry(p + q, i, x, y, path, None);
        let head = seq![Record::Entry { x, y, path, orig: None }];
        assert(head + (records(p, i + 1) + tail) =~= (head + records(p, i + 1)) + tail);
    }
}

proof fn lemma_records_add(p: Seq<Seq<char>>, q: Seq<Seq<char>>, i: int)
    requires
        0 <= i <= p.len(),
        sources_follow(p, i),
    ensures
        records(p + q, i) == records(p, i) + records(q, 0),
    decreases p.len() + 1 - i,
{
    if i == p.len() {
        lemma_records_shift(p, q, 0);
        assert(records(p, i) + records(q, 0) =~= records(q, 0));
    } else {
        assert((p + q)[i] == p[i]);
        let tail = records(q, 0);
        match entry_parts(p[i]) {
            Some((x, y, path)) if !has_prefix(p[i], "## "@) => {
                if moves(x) || moves(y) {
                    lemma_records_add(p, q, i + 2);
                } else {
                    lemma_records_add(p, q, i + 1);
                }
                lemma_entry_add(p, q, i, x, y, path);
            },
            _ => {
                lemma_records_add(p, q, i + 1);
                assert(records(p + q, i) =~= records(p, i) + tail);
            },
        }
    }
}

proof fn lemma_lists_add(a: Seq<Record>, b: Seq<Record>)
    ensures
        staged_list(a + b) == staged_list(a) + staged_list(b),
        unstaged_list(a + b) == unstaged_list(a) + unstaged_list(b),
    decreases b.len(),
{
    if b.len() == 0 {
        assert(a + b =~= a);
        assert(staged_list(a + b) =~= staged_list(a) + staged_list(b));
        assert(unstaged_list(a + b) =~= unstaged_list(a) + unstaged_list(b));
    } else {
        lemma_lists_add(a, b.drop_last());
        assert((a + b).drop_last() =~= a + b.drop_last());
        assert((a + b).last() == b.last());
        assert(staged_list(a + b) =~= staged_list(a) + staged_list(b));
        assert(unstaged_list(a + b) =~= unstaged_list(a) + unstaged_list(b));
    }
}

/// Two porcelain texts in a row list the changes of the first and then those of the
/// second, where the first ends in a NUL and each of its renames and copies is
/// followed by its source.
pub proof fn law_status_texts_add(a: Seq<char>, b: Seq<char>)
    requires
        a.len() > 0,
        a.last() == '\0',
        sources_follow(split(a, '\0').drop_last(), 0),
    ensures
        ({
            let first = status_of(records(split(a, '\0'), 0));
            let second = status_of(records(split(b, '\0'), 0));
            let both = status_of(records(split(a + b, '\0'), 0));
            &&& both.staged == first.staged + second.staged
            &&& both.unstaged == first.unstaged + second.unstaged
        }),
{
    lemma_split_after(a, b, '\0');
    let p = split(a, '\0').drop_last();
    let q = split(b, '\0');
    let end = seq![split(a, '\0').last()];
    assert(split(a, '\0') =~= p + end);
    lemma_records_add(p, q, 0);
    lemma_records_add(p, end, 0);
    reveal_strlit("## ");
    assert(records(end, 1) =~= Seq::empty());
    assert(records(end, 0) =~= Seq::empty());
    assert(records(p, 0) + records(end, 0) =~= records(p, 0));
    lemma_lists_add(records(p, 0), records(q, 0));
}

proof fn lemma_push_entry(v: Seq<FileEntry>, e: FileEntry)
    ensures
        entries(v.push(e)) == entries(v).push(e@),
{
    assert(entries(v.push(e)) =~= entries(v).push(e@));
}

proof fn lemma_status_push(rs: Seq<Record>, r: Record)
    ensures
        staged_list(rs.push(r)) == (match staged_of(r) {
            Some(e) => staged_list(rs).push(e),
            None => staged_list(rs),
        }),
        unstaged_list(rs.push(r)) == (match unstaged_of(r) {
            Some(e) => unstaged_list(rs).push(e),
            None => unstaged_list(rs),
        }),
        last_header(rs.push(r)) == (match r {
            Record::Header(h) => Some(h),
            _ => last_header(rs),
        }),
{
    assert(rs.push(r).drop_last() =~= rs);
}

/// How one changed path extends the records that follow it.
proof fn lemma_records_entry(
    parts: Seq<Seq<char>>,
    i: int,
    x: char,
    y: char,
    path: Seq<char>,
    orig: Option<Seq<char>>,
)
    requires
        0 <= i < parts.len(),
        !has_prefix(parts[i], "## "@),
        entry_parts(parts[i]) == Some((x, y, path)),
        orig == (if moves(x) || moves(y) {
            named(parts, i + 1)
        } else {
            None
        }),
    ensures
        records(parts, i) == seq![Record::Entry { x, y, path, orig }] + records(
            parts,
            if moves(x) || moves(y) {
                i + 2
            } else {
                i + 1
            },
        ),
{
}

/// Files one changed path under the lists that its states name.
fn add_entry(status: &mut Status, x: char, y: char, path: String, orig: Option<String>)
    ensures
        ({
            let rec = Record::Entry { x, y, path: path@, orig: opt_text(orig) };
            let before = old(status)@;
            final(status)@ == (StatusView {
                staged: match staged_of(rec) {
                    Some(e) => before.staged.push(e),
                    None => before.staged,
                },
                unstaged: match unstaged_of(rec) {
                    Some(e) => before.unstaged.push(e),
                    None => before.unstaged,
                },
                ..before
            })
        }),
{
    if x == '?' && y == '?' {
        let e = FileEntry { path, orig: None, letter: 'U', stat: DiffStat::default() };
        proof {
            lemma_push_entry(status.unstaged@, e);
        }
        status.unstaged.push(e);
    } else if x == '!' {
    } else if is_conflict(x, y) {
        let e = FileEntry { path, orig, letter: '!', stat: DiffStat::default() };
        proof {
            lemma_push_entry(status.unstaged@, e);
        }
        status.unstaged.push(e);
    } else {
        if x != ' ' {
            let e = FileEntry {
                path: path.clone(),
                orig: copy_opt(&orig),
                letter: display_letter(x),
                stat: DiffStat::default(),
            };
            proof {
                lemma_push_entry(status.staged@, e);
            }
            status.staged.push(e);
        }
        if y != ' ' {
            let e = FileEntry { path, orig, letter: display_letter(y), stat: DiffStat::default() };
            proof {
                lemma_push_entry(status.unstaged@, e);
            }
            status.unstaged.push(e);
        }
    }
}

/// Reads the branch header into a status.
fn set_header(status: &mut Status, header: &[char])
    ensures
        final(status)@ == (StatusView {
            branch: header_branch(header@),
            ahead: header_counts(header@).0,
            behind: header_counts(header@).1,
            has_upstream: find_seq(header@, "..."@, 0) >= 0,
            ..old(status)@
        }),
{
    let dots = chars_of("...");
    status.branch = parse_branch(header);
    let counts = parse_ahead_behind(header);
    status.ahead = counts.0;
    status.behind = counts.1;
    status.has_upstream = find_text(header, &dots, 0).is_some();
}

/// The source path of a rename or copy: the part after it, unless empty.
fn source_of(parts: &Vec<Vec<char>>, i: usize) -> (r: Option<String>)
    requires
        i < parts@.len(),
    ensures
        opt_text(r) == named(pieces(parts@), i + 1),
{
    let total = parts.len();
    if i + 1 < total && parts[i + 1].len() > 0 {
        assert(pieces(parts@)[i + 1] == parts@[i + 1]@);
        Some(text_of(&parts[i + 1]))
    } else {
        assert(i + 1 < parts@.len() ==> pieces(parts@)[i + 1] == parts@[i + 1]@);
        None
    }
}

/// Parses `git status --porcelain -z --branch` output: NUL-separated `XY path`
/// entries, where X is the index state and Y the worktree state.
pub fn parse_status(raw: &str) -> (r: Status)
    ensures
        r@ == status_of(records(split(raw@, '\0'), 0)),
{
    let v = chars_of(raw);
    let parts = split_on(&v, '\0');
    let mut status = Status::default();
    let mut i: usize = 0;
    let ghost all = pieces(parts@);
    let ghost mut done: Seq<Record> = Seq::empty();
    assert(done + records(all, 0) =~= records(all, 0));
    while i < parts.len()
        invariant
            i <= parts@.len(),
            all == pieces(parts@),
            status@ == status_of(done),
            done + records(all, i as int) == records(all, 0),
        decreases parts@.len() - i,
    {
        let entry = &parts[i];
        assert(entry@ == all[i as int]);
        let mark = chars_of("## ");
        proof {
            reveal_strlit("## ");
        }
        if starts_with(entry, &mark) {
            let header = slice_of(entry, 3, entry.len());
            let ghost rec = Record::Header(header@);
            set_header(&mut status, &header);
            proof {
                assert(records(all, i as int) == seq![rec] + records(all, i + 1));
                assert(done.push(rec) + records(all, i + 1) =~= done + (seq![rec] + records(all, i + 1)));
                lemma_status_push(done, rec);
                done = done.push(rec);
            }
            i += 1;
            continue;
        }
        match split_entry(entry) {
            Some(((x, y), path)) => {
                let moved = x == 'R' || x == 'C' || y == 'R' || y == 'C';
                let orig = if moved { source_of(&parts, i) } else { None };
                let step: usize = if moved && i + 1 < parts.len() { 2 } else { 1 };
                let ghost rec = Record::Entry { x, y, path: path@, orig: opt_text(orig) };
                proof {
                    lemma_records_entry(all, i as int, x, y, path@, opt_text(orig));
                    lemma_status_push(done, rec);
                    if moved && step == 1 {
                        assert(records(all, i + 2) =~= records(all, i + 1));
                    }
                    assert(records(all, i as int) == seq![rec] + records(all, i + step));
                    assert(done.push(rec) + records(all, i + step) =~= done + (seq![rec] + records(
                        all,
                        i + step,
                    )));
                    done = done.push(rec);
                }
                add_entry(&mut status, x, y, text_of(&path), orig);
                i += step;
            },
            None => {
                assert(records(all, i as int) == records(all, i + 1));
                i += 1;
            },
        }
    }
    assert(done + records(all, i as int) =~= done);
    status
}

// ---- Line counts ----

/// A count column: `-` and anything that is no number mean unknown.
pub open spec fn count_of(s: Seq<char>) -> Option<usize> {
    number(s)
}

pub fn parse_count(s: &[char]) -> (r: Option<usize>)
    ensures
        r == count_of(s@),
{
    parse_number(s)
}

/// The three tab-separated columns of a `numstat` row; the path keeps any
/// further tabs.
pub open spec fn columns(head: Seq<char>) -> Option<(Seq<char>, Seq<char>, Seq<char>)> {
    let a = find_char(head, '\t', 0);
    let b = find_char(head, '\t', a + 1);
    if a >= head.len() || b >= head.len() {
        None
    } else {
        Some((head.subrange(0, a), head.subrange(a + 1, b), after(head, b + 1)))
    }
}

fn read_columns(head: &[char]) -> (r: Option<(Vec<char>, Vec<char>, Vec<char>)>)
    ensures
        match r {
            Some((a, b, c)) => columns(head@) == Some((a@, b@, c@)),
            None => columns(head@) is None,
        },
{
    let end = head.len();
    let a = find(head, '\t', 0);
    if a >= end {
        return None;
    }
    let b = find(head, '\t', a + 1);
    if b >= end {
        return None;
    }
    Some((slice_of(head, 0, a), slice_of(head, a + 1, b), slice_of(head, b + 1, end)))
}

/// The part at `i`, or nothing past the end.
pub open spec fn part(parts: Seq<Seq<char>>, i: int) -> Seq<char> {
    if 0 <= i < parts.len() {
        parts[i]
    } else {
        Seq::empty()
    }
}

/// The path and counts of the `numstat` row at position `i`, where there is
/// one, and the position after it. A rename leaves the path column empty and
/// puts the old and the new path into the two parts that follow.
pub open spec fn stat_row(parts: Seq<Seq<char>>, i: int) -> (Option<(Seq<char>, DiffStat)>, int) {
    let head = trim_start(parts[i], Class::One('\n'));
    match columns(head) {
        None => (None, i + 1),
        Some((added, deleted, path)) => {
            let stat = DiffStat { added: count_of(added), deleted: count_of(deleted) };
            if path.len() > 0 {
                (Some((path, stat)), i + 1)
            } else if part(parts, i + 2).len() > 0 {
                (Some((parts[i + 2], stat)), i + 3)
            } else {
                (None, i + 3)
            }
        },
    }
}

/// The `numstat` rows from position `i` on.
pub open spec fn stat_rows(parts: Seq<Seq<char>>, i: int) -> Seq<(Seq<char>, DiffStat)>
    decreases parts.len() + 2 - i,
{
    if i < 0 || i >= parts.len() {
        Seq::empty()
    } else {
        let (row, next) = stat_row(parts, i);
        if next <= i || next > i + 3 {
            Seq::empty()
        } else {
            match row {
                Some(r) => seq![r] + stat_rows(parts, next),
                None => stat_rows(parts, next),
            }
        }
    }
}

/// The counts by path, where a later row replaces an earlier one.
pub open spec fn stat_map(rows: Seq<(Seq<char>, DiffStat)>) -> Map<Seq<char>, DiffStat>
    decreases rows.len(),
{
    if rows.len() == 0 {
        Map::empty()
    } else {
        stat_map(rows.drop_last()).insert(rows.last().0, rows.last().1)
    }
}

fn read_stat_row(parts: &Vec<Vec<char>>, i: usize) -> (r: (Option<(String, DiffStat)>, usize))
    requires
        i < parts@.len(),
    ensures
        i < r.1 <= parts@.len(),
        r.1 == stat_row(pieces(parts@), i as int).1 || (r.1 == parts@.len() && stat_row(
            pieces(parts@),
            i as int,
        ).1 > r.1),
        stat_row(pieces(parts@), i as int).1 <= i + 3,
        match r.0 {
            Some((path, stat)) => stat_row(pieces(parts@), i as int).0 == Some((path@, stat)),
            None => stat_row(pieces(parts@), i as int).0 is None,
        },
{
    let total = parts.len();
    let skip: usize = if total - i > 3 { i + 3 } else { total };
    let ghost all = pieces(parts@);
    assert(all[i as int] == parts@[i as int]@);
    let head = trimmed_start(&parts[i], Class::One('\n'));
    match read_columns(&head) {
        None => (None, i + 1),
        Some((added, deleted, path)) => {
            let stat = DiffStat { added: parse_count(&added), deleted: parse_count(&deleted) };
            if path.len() > 0 {
                (Some((text_of(&path), stat)), i + 1)
            } else if total - i > 2 && parts[i + 2].len() > 0 {
                assert(all[i + 2] == parts@[i + 2]@);
                (Some((text_of(&parts[i + 2]), stat)), skip)
            } else {
                assert(i + 2 < parts@.len() ==> all[i + 2] == parts@[i + 2]@);
                (None, skip)
            }
        },
    }
}

/// Parses `git diff --numstat -z` output into counts by path.
pub fn parse_numstat(raw: &str) -> (r: StringHashMap<DiffStat>)
    ensures
        r@ == stat_map(stat_rows(split(raw@, '\0'), 0)),
{
    let v = chars_of(raw);
    let parts = split_on(&v, '\0');
    let mut stats: StringHashMap<DiffStat> = StringHashMap::new();
    let total = parts.len();
    let mut i: usize = 0;
    let ghost all = pieces(parts@);
    let ghost mut done: Seq<(Seq<char>, DiffStat)> = Seq::empty();
    assert(done + stat_rows(all, 0) =~= stat_rows(all, 0));
    while i < total
        invariant
            total == parts@.len(),
            i <= total,
            all == pieces(parts@),
            stats@ == stat_map(done),
            done + stat_rows(all, i as int) == stat_rows(all, 0),
        decreases total - i,
    {
        let (row, next) = read_stat_row(&parts, i);
        assert(stat_rows(all, next as int) == stat_rows(all, stat_row(all, i as int).1));
        match row {
            Some((path, stat)) => {
                proof {
                    let r = (path@, stat);
                    assert(stat_rows(all, i as int) == seq![r] + stat_rows(all, next as int));
                    assert(done.push(r) + stat_rows(all, next as int) =~= done + (seq![r]
                        + stat_rows(all, next as int)));
                    assert(done.push(r).drop_last() =~= done);
                    done = done.push(r);
                }
                stats.insert(path, stat);
            },
            None => {
                assert(stat_rows(all, i as int) == stat_rows(all, next as int));
            },
        }
        i = next;
    }
    assert(done + stat_rows(all, i as int) =~= done);
    stats
}

// ---- Changed files between two revisions ----

/// The part at `i`, where there is one.
pub open spec fn maybe_part(parts: Seq<Seq<char>>, i: int) -> Option<Seq<char>> {
    if 0 <= i < parts.len() {
        Some(parts[i])
    } else {
        None
    }
}

/// The letter of a status column such as `M` or `R100`.
pub open spec fn status_letter(status: Seq<char>) -> char {
    shown_letter(status[0])
}

/// The file that a status at position `i` names, with its rename source, and
/// the position after it.
pub open spec fn changed_file(parts: Seq<Seq<char>>, i: int, status: Seq<char>) -> (
    Option<EntryView>,
    int,
) {
    let letter = status_letter(status);
    let (orig, path, next) = if moves(letter) {
        (maybe_part(parts, i + 1), maybe_part(parts, i + 2), i + 3)
    } else {
        (None, maybe_part(parts, i + 1), i + 2)
    };
    match path {
        Some(p) if p.len() > 0 => (
            Some(EntryView { path: p, orig, letter, stat: no_stat() }),
            next,
        ),
        _ => (None, next),
    }
}

/// The files of NUL-separated `name-status` parts from position `i` on.
pub open spec fn changed_files(parts: Seq<Seq<char>>, i: int) -> Seq<EntryView>
    decreases parts.len() + 2 - i,
{
    if i < 0 || i >= parts.len() {
        Seq::empty()
    } else {
        let status = trim_start(parts[i], Class::One('\n'));
        if status.len() == 0 {
            changed_files(parts, i + 1)
        } else {
            let (file, next) = changed_file(parts, i, status);
            if next <= i || next > i + 3 {
                Seq::empty()
            } else {
                match file {
                    Some(e) => seq![e] + changed_files(parts, next),
                    None => changed_files(parts, next),
                }
            }
        }
    }
}

/// The text of the part `k` after position `i`.
fn piece_text(parts: &Vec<Vec<char>>, i: usize, k: usize) -> (r: Option<String>)
    requires
        i <= parts@.len(),
    ensures
        opt_text(r) == maybe_part(pieces(parts@), i + k),
{
    let total = parts.len();
    if k < total - i {
        assert(pieces(parts@)[i + k] == parts@[i + k]@);
        Some(text_of(&parts[i + k]))
    } else {
        None
    }
}

/// Reads the file that the status at position `i` names.
fn read_changed(parts: &Vec<Vec<char>>, i: usize, status: &Vec<char>) -> (r: (
    Option<FileEntry>,
    usize,
))
    requires
        i < parts@.len(),
        status@.len() > 0,
    ensures
        i < r.1 <= parts@.len(),
        r.1 == changed_file(pieces(parts@), i as int, status@).1 || (r.1 == parts@.len()
            && changed_file(pieces(parts@), i as int, status@).1 > r.1),
        match r.0 {
            Some(e) => changed_file(pieces(parts@), i as int, status@).0 == Some(e@),
            None => changed_file(pieces(parts@), i as int, status@).0 is None,
        },
{
    let total = parts.len();
    let letter = display_letter(status[0]);
    let moved = letter == 'R' || letter == 'C';
    let orig = if moved { piece_text(parts, i, 1) } else { None };
    let k: usize = if moved { 2 } else { 1 };
    let next: usize = if total - i > k { i + k + 1 } else { total };
    match piece_text(parts, i, k) {
        Some(path) => {
            if path.as_str().is_empty() {
                (None, next)
            } else {
                let e = FileEntry { path, orig, letter, stat: DiffStat::default() };
                (Some(e), next)
            }
        },
        None => (None, next),
    }
}

/// Parses `git diff --name-status -z` output.
pub fn parse_name_status(raw: &str) -> (r: Vec<FileEntry>)
    ensures
        entries(r@) == changed_files(split(raw@, '\0'), 0),
{
    let v = chars_of(raw);
    let parts = split_on(&v, '\0');
    let mut files: Vec<FileEntry> = Vec::new();
    let mut i: usize = 0;
    let ghost all = pieces(parts@);
    assert(entries(files@) + changed_files(all, 0) =~= changed_files(all, 0));
    while i < parts.len()
        invariant
            i <= parts@.len(),
            all == pieces(parts@),
            entries(files@) + changed_files(all, i as int) == changed_files(all, 0),
        decreases parts@.len() - i,
    {
        assert(all[i as int] == parts@[i as int]@);
        let status = trimmed_start(&parts[i], Class::One('\n'));
        if status.len() == 0 {
            i += 1;
            continue;
        }
        let (file, next) = read_changed(&parts, i, &status);
        let ghost step = changed_file(all, i as int, status@).1;
        assert(changed_files(all, next as int) == changed_files(all, step));
        match file {
            Some(e) => {
                proof {
                    let rest = changed_files(all, next as int);
                    assert(changed_files(all, i as int) == seq![e@] + rest);
                    lemma_push_entry(files@, e);
                    assert(entries(files@).push(e@) + rest =~= entries(files@) + (seq![e@] + rest));
                }
                files.push(e);
            },
            None => {},
        }
        i = next;
    }
    assert(entries(files@) + changed_files(all, i as int) =~= entries(files@));
    files
}

// ---- The history of one file ----

/// How many leading characters of `s` fit into `n` bytes.
pub open spec fn fitting(s: Seq<char>, n: nat) -> nat
    decreases s.len(),
{
    if utf8_len(s) <= n {
        s.len()
    } else if s.len() == 0 {
        0
    } else {
        fitting(s.drop_last(), n)
    }
}

/// The abbreviated form of a commit hash: its first seven bytes.
pub open spec fn short_hash(hash: Seq<char>) -> Seq<char> {
    hash.take(fitting(hash, 7) as int)
}

proof fn lemma_fitting(s: Seq<char>, n: nat, k: int)
    requires
        0 <= k <= s.len(),
        utf8_len(s.take(k)) <= n,
        k == s.len() || utf8_len(s.take(k + 1)) > n,
    ensures
        fitting(s, n) == k,
    decreases s.len(),
{
    if k == s.len() {
        assert(s.take(k) =~= s);
    } else {
        lemma_len_monotone(s, k + 1, s.len() as int);
        assert(s.take(s.len() as int) =~= s);
        let t = s.drop_last();
        assert(t.take(k) =~= s.take(k));
        if k < t.len() {
            assert(t.take(k + 1) =~= s.take(k + 1));
        }
        lemma_fitting(t, n, k);
    }
}

proof fn lemma_len_monotone(s: Seq<char>, a: int, b: int)
    requires
        0 <= a <= b <= s.len(),
    ensures
        utf8_len(s.take(a)) <= utf8_len(s.take(b)),
    decreases b - a,
{
    if a < b {
        lemma_len_monotone(s, a, b - 1);
        assert(s.take(b).drop_last() =~= s.take(b - 1));
    }
}

fn shorten(hash: &[char]) -> (r: Vec<char>)
    ensures
        r@ == short_hash(hash@),
{
    let mut i: usize = 0;
    let mut used: usize = 0;
    assert(hash@.take(0) =~= Seq::empty());
    while i < hash.len()
        invariant
            i <= hash@.len(),
            used <= 7,
            used == utf8_len(hash@.take(i as int)),
        decreases hash@.len() - i,
    {
        let w = char_bytes(hash[i]);
        assert(hash@.take(i + 1).drop_last() =~= hash@.take(i as int));
        if used + w > 7 {
            proof {
                lemma_fitting(hash@, 7, i as int);
            }
            assert(hash@.subrange(0, i as int) =~= hash@.take(i as int));
            return slice_of(hash, 0, i);
        }
        used += w;
        i += 1;
    }
    proof {
        lemma_fitting(hash@, 7, i as int);
    }
    assert(hash@.subrange(0, i as int) =~= hash@.take(i as int));
    slice_of(hash, 0, i)
}

/// The fields from `i` on, less the line feeds before them and those that are
/// then empty.
pub open spec fn filled_fields(fields: Seq<Seq<char>>, i: int) -> Seq<Seq<char>>
    decreases fields.len() - i,
{
    if i < 0 || i >= fields.len() {
        Seq::empty()
    } else {
        let field = trim_start(fields[i], Class::One('\n'));
        if field.len() == 0 {
            filled_fields(fields, i + 1)
        } else {
            seq![field] + filled_fields(fields, i + 1)
        }
    }
}

fn read_filled(fields: &Vec<Vec<char>>, from: usize) -> (r: Vec<Vec<char>>)
    ensures
        pieces(r@) == filled_fields(pieces(fields@), from as int),
        forall|k: int| 0 <= k < r@.len() ==> (#[trigger] r@[k])@.len() > 0,
{
    let mut out: Vec<Vec<char>> = Vec::new();
    let mut i: usize = from;
    let ghost all = pieces(fields@);
    assert(pieces(out@) + filled_fields(all, from as int) =~= filled_fields(all, from as int));
    while i < fields.len()
        invariant
            from <= i,
            all == pieces(fields@),
            i <= fields@.len() || i == from,
            pieces(out@) + filled_fields(all, i as int) == filled_fields(all, from as int),
            forall|k: int| 0 <= k < out@.len() ==> (#[trigger] out@[k])@.len() > 0,
        decreases fields@.len() - i,
    {
        assert(all[i as int] == fields@[i as int]@);
        let field = trimmed_start(&fields[i], Class::One('\n'));
        if field.len() > 0 {
            let ghost before = out@;
            let ghost rest = filled_fields(all, i + 1);
            proof {
                assert(filled_fields(all, i as int) == seq![field@] + rest);
                assert(pieces(before).push(field@) + rest =~= pieces(before) + (seq![field@] + rest));
                assert(pieces(before.push(field)) =~= pieces(before).push(field@));
            }
            out.push(field);
        }
        i += 1;
    }
    assert(pieces(out@) + filled_fields(all, i as int) =~= pieces(out@));
    out
}

/// The parent that a history record names first, or the empty tree.
pub open spec fn first_word_or(s: Seq<char>, other: Seq<char>) -> Seq<char> {
    if words(s).len() > 0 {
        words(s)[0]
    } else {
        other
    }
}

fn read_first_word(s: &[char], other: &str) -> (r: String)
    ensures
        r@ == first_word_or(s@, other@),
{
    let found = words_of(s);
    if found.len() > 0 {
        assert(pieces(found@)[0] == found@[0]@);
        text_of(&found[0])
    } else {
        assert(pieces(found@) =~= Seq::empty());
        other.to_string()
    }
}

/// The history entry that one record holds: the hash, the parents, the subject,
/// and a `name-status` entry for the file.
pub open spec fn history_entry(record: Seq<char>) -> Option<HistoryView> {
    let fields = split(record, '\0');
    let tail = filled_fields(fields, 3);
    if fields[0].len() == 0 || tail.len() == 0 {
        None
    } else {
        match changed_file(tail, 0, tail[0]).0 {
            None => None,
            Some(entry) => Some(
                HistoryView {
                    line: short_hash(fields[0]) + seq![' '] + part(fields, 2),
                    file: RefFileView {
                        entry,
                        old_spec: first_word_or(part(fields, 1), EMPTY_TREE@),
                        new_spec: fields[0],
                    },
                },
            ),
        }
    }
}

pub open spec fn history_entries(recs: Seq<Seq<char>>) -> Seq<HistoryView>
    decreases recs.len(),
{
    if recs.len() == 0 {
        Seq::empty()
    } else {
        match history_entry(recs.last()) {
            Some(e) => history_entries(recs.drop_last()).push(e),
            None => history_entries(recs.drop_last()),
        }
    }
}

fn read_history_entry(record: &Vec<char>) -> (r: Option<FileHistoryEntry>)
    ensures
        match r {
            Some(e) => history_entry(record@) == Some(e@),
            None => history_entry(record@) is None,
        },
{
    let fields = split_on(record, '\0');
    let ghost all = pieces(fields@);
    let tail = read_filled(&fields, 3);
    assert(all[0] == fields@[0]@);
    if fields[0].len() == 0 || tail.len() == 0 {
        assert(tail@.len() == pieces(tail@).len());
        return None;
    }
    assert(pieces(tail@)[0] == tail@[0]@);
    let (file, _next) = read_changed(&tail, 0, &tail[0]);
    match file {
        None => None,
        Some(entry) => {
            let mut line = shorten(&fields[0]);
            line.push(' ');
            let none: Vec<char> = Vec::new();
            assert(none@ =~= Seq::<char>::empty());
            let subject: &Vec<char> = if fields.len() > 2 { &fields[2] } else { &none };
            let parents: &Vec<char> = if fields.len() > 1 { &fields[1] } else { &none };
            proof {
                assert(fields@.len() > 2 ==> all[2] == fields@[2]@);
                assert(fields@.len() > 1 ==> all[1] == fields@[1]@);
                assert(subject@ == part(all, 2));
                assert(parents@ == part(all, 1));
            }
            push_all(&mut line, subject);
            assert(line@ =~= short_hash(all[0]) + seq![' '] + part(all, 2));
            Some(
                FileHistoryEntry {
                    line: text_of(&line),
                    file: RefFile {
                        entry,
                        old_spec: read_first_word(parents, EMPTY_TREE),
                        new_spec: text_of(&fields[0]),
                    },
                },
            )
        },
    }
}

/// Parses `git log -z --name-status` output whose records begin with a record
/// separator.
pub fn parse_file_history(raw: &str) -> (r: Vec<FileHistoryEntry>)
    ensures
        history_view(r@) == history_entries(split(raw@, '\x1e').drop_first()),
{
    let v = chars_of(raw);
    let recs = split_on(&v, '\x1e');
    let mut history: Vec<FileHistoryEntry> = Vec::new();
    let mut i: usize = 1;
    let ghost all = pieces(recs@).drop_first();
    assert(history_view(history@) =~= Seq::empty());
    assert(all.take(0) =~= Seq::empty());
    while i < recs.len()
        invariant
            1 <= i <= recs@.len(),
            all == pieces(recs@).drop_first(),
            history_view(history@) == history_entries(all.take(i - 1)),
        decreases recs@.len() - i,
    {
        let entry = read_history_entry(&recs[i]);
        proof {
            assert(all.take(i as int).drop_last() =~= all.take(i - 1));
            assert(all.take(i as int).last() == recs@[i as int]@);
        }
        match entry {
            Some(e) => {
                assert(history_view(history@.push(e)) =~= history_view(history@).push(e@));
                history.push(e);
            },
            None => {},
        }
        i += 1;
    }
    assert(all.take(i - 1) =~= all);
    history
}

// ---- Paths and counts of entries ----

/// The paths that an entry touches: its own and its source.
pub open spec fn touched(e: EntryView) -> Seq<Seq<char>> {
    match e.orig {
        Some(o) => seq![e.path, o],
        None => seq![e.path],
    }
}

pub open spec fn all_touched(es: Seq<EntryView>) -> Seq<Seq<char>>
    decreases es.len(),
{
    if es.len() == 0 {
        Seq::empty()
    } else {
        all_touched(es.drop_last()) + touched(es.last())
    }
}

/// The paths that the entries touch, each once, in order.
pub fn entry_paths(list: &[FileEntry]) -> (r: Vec<String>)
    ensures
        texts(r@) == dedupe(all_touched(entries(list@))),
{
    let mut paths: Vec<String> = Vec::new();
    let mut i: usize = 0;
    let ghost all = entries(list@);
    assert(all.take(0) =~= Seq::empty());
    assert(texts(paths@) =~= Seq::empty());
    while i < list.len()
        invariant
            i <= list@.len(),
            all == entries(list@),
            texts(paths@) == dedupe(all_touched(all.take(i as int))),
        decreases list@.len() - i,
    {
        let e = &list[i];
        let ghost before = all_touched(all.take(i as int));
        proof {
            assert(all.take(i + 1).drop_last() =~= all.take(i as int));
            assert(all.take(i + 1).last() == e@);
            assert(before.push(e@.path).drop_last() =~= before);
        }
        push_new(&mut paths, e.path.as_str());
        assert(texts(paths@) == dedupe(before.push(e@.path)));
        match &e.orig {
            Some(o) => {
                proof {
                    let mid = before.push(e@.path);
                    assert(e@.orig == Some(o@));
                    assert(mid.push(o@).drop_last() =~= mid);
                    assert(before + touched(e@) =~= mid.push(o@));
                }
                push_new(&mut paths, o.as_str());
                assert(texts(paths@) == dedupe(before.push(e@.path).push(o@)));
            },
            None => {
                assert(before + touched(e@) =~= before.push(e@.path));
            },
        }
        assert(all_touched(all.take(i + 1)) == before + touched(e@));
        i += 1;
    }
    assert(all.take(i as int) =~= all);
    paths
}

/// The counts for `path`, or none.
pub open spec fn stat_for(stats: Map<Seq<char>, DiffStat>, path: Seq<char>) -> DiffStat {
    if stats.contains_key(path) {
        stats[path]
    } else {
        no_stat()
    }
}

/// The entry with the counts that `stats` has for its path.
pub open spec fn with_stat(e: EntryView, stats: Map<Seq<char>, DiffStat>) -> EntryView {
    EntryView { stat: stat_for(stats, e.path), ..e }
}

fn look_up(stats: &StringHashMap<DiffStat>, path: &str) -> (r: DiffStat)
    ensures
        r == stat_for(stats@, path@),
{
    match stats.get(path) {
        Some(s) => *s,
        None => DiffStat::default(),
    }
}

/// Gives every entry the counts for its path.
pub fn attach_stats(list: &mut Vec<FileEntry>, stats: &StringHashMap<DiffStat>)
    ensures
        entries(final(list)@) == entries(old(list)@).map_values(
            |e: EntryView| with_stat(e, stats@),
        ),
{
    let mut i: usize = 0;
    let ghost want = entries(list@).map_values(|e: EntryView| with_stat(e, stats@));
    let ghost orig = list@;
    while i < list.len()
        invariant
            i <= list@.len(),
            list@.len() == orig.len(),
            want == entries(orig).map_values(|e: EntryView| with_stat(e, stats@)),
            forall|k: int| 0 <= k < i ==> (#[trigger] list@[k])@ == want[k],
            forall|k: int| i <= k < list@.len() ==> list@[k] == orig[k],
        decreases list@.len() - i,
    {
        let stat = look_up(stats, list[i].path.as_str());
        let e = FileEntry { stat, ..list[i].clone() };
        assert(e@ == with_stat(orig[i as int]@, stats@));
        list.set(i, e);
        i += 1;
    }
    assert(entries(list@) =~= want);
}

/// How many lines a text file holds: its line feeds, and one more where its
/// last byte is none.
pub open spec fn line_feeds(bytes: Seq<u8>) -> nat
    decreases bytes.len(),
{
    if bytes.len() == 0 {
        0
    } else {
        line_feeds(bytes.drop_last()) + (if bytes.last() == 10 {
            1nat
        } else {
            0nat
        })
    }
}

pub open spec fn text_lines(bytes: Seq<u8>) -> Option<nat> {
    if bytes.contains(0) {
        None
    } else {
        Some(
            line_feeds(bytes) + (if bytes.len() > 0 && bytes.last() != 10 {
                1nat
            } else {
                0nat
            }),
        )
    }
}

/// The largest file whose lines are counted, in bytes.
pub const COUNT_LIMIT: u64 = 1048576;

/// How many bytes of untracked files one refresh reads.
pub const COUNT_BUDGET: u64 = 8388608;

/// Whether an untracked file of `len` bytes is read for its line count.
pub open spec fn countable(is_file: bool, len: u64, remaining: u64) -> bool {
    is_file && len <= COUNT_LIMIT && len <= remaining
}

pub fn may_count(is_file: bool, len: u64, remaining: u64) -> (r: bool)
    ensures
        r == countable(is_file, len, remaining),
{
    is_file && len <= COUNT_LIMIT && len <= remaining
}

fn count_lines(bytes: &Vec<u8>) -> (r: Option<usize>)
    ensures
        match r {
            Some(n) => text_lines(bytes@) == Some(n as nat),
            None => text_lines(bytes@) is None,
        },
{
    let mut i: usize = 0;
    let mut feeds: usize = 0;
    assert(bytes@.take(0) =~= Seq::empty());
    while i < bytes.len()
        invariant
            i <= bytes@.len(),
            feeds == line_feeds(bytes@.take(i as int)),
            feeds <= i,
            i > 0 && bytes@[i - 1] != 10 ==> feeds < i,
            forall|k: int| 0 <= k < i ==> bytes@[k] != 0,
        decreases bytes@.len() - i,
    {
        let b = bytes[i];
        if b == 0 {
            assert(bytes@.contains(0u8));
            return None;
        }
        assert(bytes@.take(i + 1).drop_last() =~= bytes@.take(i as int));
        if b == 10 {
            feeds += 1;
        }
        i += 1;
    }
    assert(bytes@.take(i as int) =~= bytes@);
    assert(!bytes@.contains(0));
    if bytes.len() > 0 && bytes[bytes.len() - 1] != 10 {
        feeds += 1;
    }
    Some(feeds)
}

/// The line count of an untracked file and the budget left after it, from the
/// file's kind and length and from what reading it gave.
pub fn text_line_count(is_file: bool, len: u64, read: Option<&Vec<u8>>, remaining: &mut u64) -> (r:
    Option<usize>)
    ensures
        match read {
            Some(bytes) if countable(is_file, len, *old(remaining)) => {
                &&& *final(remaining) == *old(remaining) - len
                &&& match r {
                    Some(n) => text_lines(bytes@) == Some(n as nat),
                    None => text_lines(bytes@) is None,
                }
            },
            _ => r is None && *final(remaining) == *old(remaining),
        },
{
    if !may_count(is_file, len, *remaining) {
        return None;
    }
    match read {
        Some(bytes) => {
            *remaining = *remaining - len;
            count_lines(bytes)
        },
        None => None,
    }
}

// ---- Commands ----

/// What to do next in a sequence of git commands, given the replies so far.
pub enum Step<T> {
    /// Run git with these arguments in the repository and hand the reply back:
    /// its output, or the line that says why it failed.
    Run(Vec<String>),
    Done(Result<T, String>),
}

/// What a [`Step`] says.
#[verifier::ext_equal]
pub enum Next<V> {
    Run(Seq<Seq<char>>),
    Fail(Seq<char>),
    Give(V),
}

pub type Outcome = Result<Seq<char>, Seq<char>>;

pub open spec fn outcome(r: Result<String, String>) -> Outcome {
    match r {
        Ok(s) => Ok(s@),
        Err(s) => Err(s@),
    }
}

pub open spec fn outcomes(v: Seq<Result<String, String>>) -> Seq<Outcome> {
    v.map_values(|r: Result<String, String>| outcome(r))
}

impl<T> Step<T> {
    /// The step with its value seen through `f`.
    pub open spec fn seen<V>(self, f: spec_fn(T) -> V) -> Next<V> {
        match self {
            Step::Run(args) => Next::Run(texts(args@)),
            Step::Done(Err(e)) => Next::Fail(e@),
            Step::Done(Ok(t)) => Next::Give(f(t)),
        }
    }
}

/// The views of a sequence of string slices.
pub open spec fn strs(v: Seq<&str>) -> Seq<Seq<char>> {
    v.map_values(|s: &str| s@)
}

fn args_of(parts: &[&str]) -> (r: Vec<String>)
    ensures
        texts(r@) == strs(parts@),
{
    let mut out: Vec<String> = Vec::new();
    let mut i: usize = 0;
    while i < parts.len()
        invariant
            i <= parts@.len(),
            texts(out@) =~= strs(parts@).take(i as int),
        decreases parts@.len() - i,
    {
        let s = parts[i].to_string();
        let ghost before = out@;
        out.push(s);
        assert(texts(out@) =~= texts(before).push(s@));
        i += 1;
    }
    out
}

fn with_paths(mut args: Vec<String>, paths: &Vec<String>) -> (r: Vec<String>)
    ensures
        texts(r@) == texts(args@) + texts(paths@),
{
    let ghost first = texts(args@);
    let mut i: usize = 0;
    assert(first + texts(paths@).take(0) =~= first);
    while i < paths.len()
        invariant
            i <= paths@.len(),
            texts(args@) =~= first + texts(paths@).take(i as int),
        decreases paths@.len() - i,
    {
        let s = paths[i].clone();
        let ghost before = args@;
        args.push(s);
        assert(texts(args@) =~= texts(before).push(s@));
        i += 1;
    }
    assert(texts(paths@).take(i as int) =~= texts(paths@));
    args
}

/// The reply at `i`.
fn reply(replies: &[Result<String, String>], i: usize) -> (r: Result<&String, String>)
    requires
        i < replies@.len(),
    ensures
        match r {
            Ok(s) => outcomes(replies@)[i as int] == Ok::<Seq<char>, Seq<char>>(s@),
            Err(e) => outcomes(replies@)[i as int] == Err::<Seq<char>, Seq<char>>(e@),
        },
{
    match &replies[i] {
        Ok(s) => Ok(s),
        Err(e) => Err(e.clone()),
    }
}

/// A repository, by the path of its top-level directory.
pub struct Git {
    root: String,
}

impl View for Git {
    type V = Seq<char>;

    closed spec fn view(&self) -> Seq<char> {
        self.root@
    }
}

impl Clone for Git {
    fn clone(&self) -> (r: Git)
        ensures
            r@ == self@,
    {
        Git { root: self.root.clone() }
    }
}

/// One command whose outcome is the result.
pub open spec fn one_command<V>(o: Seq<Outcome>, args: Seq<Seq<char>>, give: spec_fn(Seq<char>) -> V) -> Next<V> {
    if o.len() == 0 {
        Next::Run(args)
    } else {
        match o[0] {
            Ok(out) => Next::Give(give(out)),
            Err(e) => Next::Fail(e),
        }
    }
}

/// The lines of `out` that are not empty.
pub open spec fn filled(parts: Seq<Seq<char>>) -> Seq<Seq<char>>
    decreases parts.len(),
{
    if parts.len() == 0 {
        Seq::empty()
    } else if parts.last().len() == 0 {
        filled(parts.drop_last())
    } else {
        filled(parts.drop_last()).push(parts.last())
    }
}

/// The non-empty lines of a command's output.
pub open spec fn filled_lines(out: Seq<char>) -> Seq<Seq<char>> {
    filled(lines(out))
}

pub fn lines_text(out: &str) -> (r: Vec<String>)
    ensures
        texts(r@) == filled_lines(out@),
{
    let v = chars_of(out);
    let all = lines_of(&v);
    let mut r: Vec<String> = Vec::new();
    let mut i: usize = 0;
    let ghost parts = pieces(all@);
    assert(parts.take(0) =~= Seq::empty());
    assert(texts(r@) =~= Seq::empty());
    while i < all.len()
        invariant
            i <= all@.len(),
            parts == pieces(all@),
            texts(r@) == filled(parts.take(i as int)),
        decreases all@.len() - i,
    {
        proof {
            assert(parts.take(i + 1).drop_last() =~= parts.take(i as int));
            assert(parts.take(i + 1).last() == all@[i as int]@);
        }
        if all[i].len() > 0 {
            let s = text_of(&all[i]);
            let ghost before = r@;
            r.push(s);
            assert(texts(r@) =~= texts(before).push(s@));
        }
        i += 1;
    }
    assert(parts.take(i as int) =~= parts);
    r
}

/// What one command that lists lines comes to.
pub open spec fn line_command(o: Seq<Outcome>, args: Seq<Seq<char>>) -> Next<Seq<Seq<char>>> {
    one_command(o, args, |out: Seq<char>| filled_lines(out))
}

fn run_lines(replies: &[Result<String, String>], args: Vec<String>) -> (r: Step<Vec<String>>)
    ensures
        r.seen(|v: Vec<String>| texts(v@)) == line_command(outcomes(replies@), texts(args@)),
{
    if replies.len() == 0 {
        return Step::Run(args);
    }
    match reply(replies, 0) {
        Ok(out) => Step::Done(Ok(lines_text(out.as_str()))),
        Err(e) => Step::Done(Err(e)),
    }
}

/// What one command whose output does not matter comes to.
pub open spec fn plain_command(o: Seq<Outcome>, args: Seq<Seq<char>>) -> Next<()> {
    one_command(o, args, |out: Seq<char>| ())
}

fn run_plain(replies: &[Result<String, String>], args: Vec<String>) -> (r: Step<()>)
    ensures
        r.seen(|v: ()| v) == plain_command(outcomes(replies@), texts(args@)),
{
    if replies.len() == 0 {
        return Step::Run(args);
    }
    match reply(replies, 0) {
        Ok(_) => Step::Done(Ok(())),
        Err(e) => Step::Done(Err(e)),
    }
}

/// Finding the repository that holds a directory.
pub open spec fn discover_next(o: Seq<Outcome>) -> Next<Seq<char>> {
    if o.len() == 0 {
        Next::Run(seq!["rev-parse"@, "--show-toplevel"@])
    } else {
        match o[0] {
            Err(e) => Next::Fail(e),
            Ok(out) => if trim(out, Class::White).len() == 0 {
                Next::Fail("not inside a git repository"@)
            } else {
                Next::Give(trim(out, Class::White))
            },
        }
    }
}

impl Git {
    /// Locates the repository that holds the directory the commands run in.
    pub fn discover(replies: &[Result<String, String>]) -> (r: Step<Git>)
        ensures
            r.seen(|g: Git| g@) == discover_next(outcomes(replies@)),
    {
        if replies.len() == 0 {
            let args = args_of(&["rev-parse", "--show-toplevel"]);
            assert(texts(args@) =~= seq!["rev-parse"@, "--show-toplevel"@]);
            return Step::Run(args);
        }
        match reply(replies, 0) {
            Err(e) => Step::Done(Err(e)),
            Ok(out) => {
                let v = chars_of(out.as_str());
                let root = trimmed(&v, Class::White);
                if root.len() == 0 {
                    Step::Done(Err("not inside a git repository".to_string()))
                } else {
                    Step::Done(Ok(Git { root: text_of(&root) }))
                }
            },
        }
    }
}

/// The repositories among `found`, each root once, in order.
pub open spec fn found_roots(found: Seq<Result<Git, String>>) -> Seq<Seq<char>>
    decreases found.len(),
{
    if found.len() == 0 {
        Seq::empty()
    } else {
        match found.last() {
            Ok(g) => found_roots(found.drop_last()).push(g@),
            Err(_) => found_roots(found.drop_last()),
        }
    }
}

pub open spec fn roots(v: Seq<Git>) -> Seq<Seq<char>> {
    v.map_values(|g: Git| g@)
}

/// Whether `list` holds the repositories among `found`, each root once: that of
/// the directory itself, which was looked for first, before the others, and the
/// others by path.
pub open spec fn visible_roots(found: Seq<Result<Git, String>>, list: Seq<Seq<char>>) -> bool {
    let own: int = if found.len() > 0 && found[0] is Ok {
        1
    } else {
        0
    };
    &&& list.no_duplicates()
    &&& forall|x: Seq<char>| #[trigger] list.contains(x) <==> found_roots(found).contains(x)
    &&& own == 1 ==> list.len() > 0 && list[0] == found[0]->Ok_0@
    &&& forall|i: int, j: int|
        own <= i < j < list.len() ==> !path_less(#[trigger] list[j], #[trigger] list[i])
}

proof fn lemma_dedupe_first(s: Seq<Seq<char>>)
    requires
        s.len() > 0,
    ensures
        dedupe(s).len() > 0,
        dedupe(s)[0] == s[0],
    decreases s.len(),
{
    if s.len() > 1 {
        lemma_dedupe_first(s.drop_last());
    } else {
        assert(dedupe(s.drop_last()) =~= Seq::empty());
    }
}

proof fn lemma_found_first(found: Seq<Result<Git, String>>)
    requires
        found.len() > 0,
        found[0] is Ok,
    ensures
        found_roots(found).len() > 0,
        found_roots(found)[0] == found[0]->Ok_0@,
    decreases found.len(),
{
    if found.len() > 1 {
        lemma_found_first(found.drop_last());
    } else {
        assert(found_roots(found.drop_last()) =~= Seq::empty());
    }
}

/// What repositories are sorted by: the first before the others where it holds the
/// directory itself, the others by path.
spec fn root_keys(list: Seq<Seq<char>>, own: bool) -> Seq<SortKeyView> {
    Seq::new(
        list.len(),
        |i: int|
            SortKeyView {
                rank: if own && i == 0 {
                    (0, 0, 0, 0, 0)
                } else {
                    (1, 0, 0, 0, 0)
                },
                text: path_key(list[i]),
            },
    )
}

proof fn lemma_sorted_roots(
    found: Seq<Result<Git, String>>,
    list: Seq<Seq<char>>,
    order: Seq<usize>,
    sorted: Seq<Seq<char>>,
)
    requires
        list == dedupe(found_roots(found)),
        list.len() <= usize::MAX,
        sorted_places(
            root_keys(list, found.len() > 0 && found[0] is Ok),
            order,
            0,
            list.len() as int,
        ),
        sorted.len() == order.len(),
        forall|i: int| 0 <= i < order.len() ==> #[trigger] sorted[i] == list[order[i] as int],
    ensures
        visible_roots(found, sorted),
{
    let own = found.len() > 0 && found[0] is Ok;
    let keys = root_keys(list, own);
    law_dedupe(found_roots(found));
    assert forall|i: int, j: int| 0 <= i < j < order.len() implies order[i] != order[j] by {
        assert(precedes(keys, order[i] as int, order[j] as int));
        law_order_is_irreflexive(keys[order[i] as int].text);
    }
    assert forall|i: int, j: int| 0 <= i < sorted.len() && 0 <= j < sorted.len() && i
        != j implies sorted[i] != sorted[j] by {
        assert(order[i] != order[j]);
    }
    assert forall|x: Seq<char>| #[trigger] sorted.contains(x) <==> found_roots(found).contains(
        x,
    ) by {
        assert(list.contains(x) <==> found_roots(found).contains(x));
        if sorted.contains(x) {
            let i = choose|i: int| 0 <= i < sorted.len() && sorted[i] == x;
            assert(list[order[i] as int] == x);
        }
        if list.contains(x) {
            let k = choose|k: int| 0 <= k < list.len() && list[k] == x;
            let place = k as usize;
            assert(order.contains(place));
            let i = choose|i: int| 0 <= i < order.len() && order[i] == place;
            assert(sorted[i] == x);
        }
    }
    if own {
        lemma_found_first(found);
        lemma_dedupe_first(found_roots(found));
        assert(order.contains(0usize));
        let q = choose|q: int| 0 <= q < order.len() && order[q] == 0;
        if q > 0 {
            assert(precedes(keys, order[0] as int, order[q] as int));
            assert(order[0] != order[q]);
            assert(false);
        }
    }
    let first: int = if own {
        1
    } else {
        0
    };
    assert forall|i: int, j: int| first <= i < j < sorted.len() implies !path_less(
        #[trigger] sorted[j],
        #[trigger] sorted[i],
    ) by {
        assert(precedes(keys, order[i] as int, order[j] as int));
        if own {
            assert(order[0] != order[i] && order[0] != order[j]);
        }
        let a = path_key(sorted[i]);
        let b = path_key(sorted[j]);
        law_order_is_irreflexive(a);
        if lex_less(a, b) && lex_less(b, a) {
            law_order_is_transitive(a, b, a);
        }
    }
}

/// Whether the search for child repositories leaves a directory out: one that holds
/// a repository's data, build output or packages, or one among `tools`.
pub open spec fn skipped(name: Seq<char>, tools: Seq<Seq<char>>) -> bool {
    name == ".git"@ || name == "target"@ || name == "node_modules"@ || tools.contains(name)
}

/// Whether the search for child repositories leaves a directory out. `tools` are the
/// names of directories that tools keep beside the sources.
pub fn skipped_dir(name: &str, tools: &Vec<String>) -> (r: bool)
    ensures
        r == skipped(name@, texts(tools@)),
{
    if eq_text(name, ".git") || eq_text(name, "target") || eq_text(name, "node_modules") {
        return true;
    }
    let mut i: usize = 0;
    while i < tools.len()
        invariant
            i <= tools@.len(),
            forall|k: int| 0 <= k < i ==> #[trigger] texts(tools@)[k] != name@,
        decreases tools@.len() - i,
    {
        assert(texts(tools@)[i as int] == tools@[i as int]@);
        if eq_text(name, tools[i].as_str()) {
            return true;
        }
        i += 1;
    }
    false
}

/// The `/`-separated parts of a path that name something: no empty part and no
/// `.` after the first part.
pub open spec fn path_parts(parts: Seq<Seq<char>>) -> Seq<Seq<char>>
    decreases parts.len(),
{
    if parts.len() == 0 {
        Seq::empty()
    } else if parts.last().len() == 0 || (parts.len() > 1 && parts.last() == "."@) {
        path_parts(parts.drop_last())
    } else {
        path_parts(parts.drop_last()).push(parts.last())
    }
}

/// The last component of a path where it is an ordinary name.
pub open spec fn file_name(path: Seq<char>) -> Option<Seq<char>> {
    let parts = path_parts(split(path, '/'));
    if parts.len() == 0 || parts.last() == ".."@ || parts.last() == "."@ {
        None
    } else {
        Some(parts.last())
    }
}

/// The last component of a path where it is an ordinary name.
pub fn last_name(path: &str) -> (r: Option<String>)
    ensures
        opt_text(r) == file_name(path@),
{
    let v = chars_of(path);
    let parts = split_on(&v, '/');
    let ghost all = pieces(parts@);
    let dot = chars_of(".");
    let dots = chars_of("..");
    let mut i: usize = parts.len();
    assert(all.take(i as int) =~= all);
    while i > 0
        invariant
            i <= parts@.len(),
            all == pieces(parts@),
            dot@ == "."@,
            dots@ == ".."@,
            path_parts(all.take(i as int)) == path_parts(split(path@, '/')),
        decreases i,
    {
        let part = &parts[i - 1];
        proof {
            assert(all.take(i as int).drop_last() =~= all.take(i - 1));
            assert(all.take(i as int).last() == part@);
        }
        if part.len() == 0 || (i > 1 && same(part, &dot)) {
            i -= 1;
        } else {
            if same(part, &dots) || same(part, &dot) {
                return None;
            }
            return Some(text_of(part));
        }
    }
    None
}

/// Arguments that name the last `limit` log entries.
pub open spec fn last_entries(limit: usize) -> Seq<char> {
    seq!['-'] + digits(limit as nat)
}

fn last_arg(limit: usize) -> (r: String)
    ensures
        r@ == last_entries(limit),
{
    let mut v: Vec<char> = Vec::new();
    v.push('-');
    let d = digits_of(limit);
    push_all(&mut v, &d);
    assert(v@ =~= last_entries(limit));
    text_of(&v)
}

/// Pulling, then pushing.
pub open spec fn sync_next(o: Seq<Outcome>) -> Next<Seq<char>> {
    if o.len() == 0 {
        Next::Run(seq!["pull"@, "--rebase"@, "--autostash"@])
    } else if o[0] is Err {
        Next::Fail(o[0]->Err_0)
    } else if o.len() == 1 {
        Next::Run(seq!["push"@])
    } else if o[1] is Err {
        Next::Fail(o[1]->Err_0)
    } else {
        Next::Give("synced with remote"@)
    }
}

/// The status and both line counts. A failure of either count leaves the
/// entries of its list without counts.
pub open spec fn status_next(o: Seq<Outcome>) -> Next<StatusView> {
    if o.len() == 0 {
        Next::Run(
            seq!["status"@, "--porcelain"@, "-z"@, "--branch"@, "--untracked-files=all"@],
        )
    } else if o[0] is Err {
        Next::Fail(o[0]->Err_0)
    } else if o.len() == 1 {
        Next::Run(
            seq![
                "diff"@,
                "--numstat"@,
                "-z"@,
                "-M"@,
                "--ignore-submodules=all"@,
                "--no-ext-diff"@,
            ],
        )
    } else if o.len() == 2 {
        Next::Run(
            seq![
                "diff"@,
                "--cached"@,
                "--numstat"@,
                "-z"@,
                "-M"@,
                "--ignore-submodules=all"@,
                "--no-ext-diff"@,
            ],
        )
    } else {
        let base = status_of(records(split(o[0]->Ok_0, '\0'), 0));
        Next::Give(
            StatusView {
                unstaged: counted(base.unstaged, o[1]),
                staged: counted(base.staged, o[2]),
                ..base
            },
        )
    }
}

/// The entries with the counts that a `numstat` reply gives them.
pub open spec fn counted(list: Seq<EntryView>, reply: Outcome) -> Seq<EntryView> {
    match reply {
        Ok(raw) => list.map_values(
            |e: EntryView| with_stat(e, stat_map(stat_rows(split(raw, '\0'), 0))),
        ),
        Err(_) => list,
    }
}

fn count_list(list: &mut Vec<FileEntry>, replies: &[Result<String, String>], i: usize)
    requires
        i < replies@.len(),
    ensures
        entries(final(list)@) == counted(entries(old(list)@), outcomes(replies@)[i as int]),
{
    match reply(replies, i) {
        Ok(raw) => {
            let stats = parse_numstat(raw.as_str());
            attach_stats(list, &stats);
        },
        Err(_) => {},
    }
}

/// `add -A` for the given paths; nothing to do where there are none.
pub open spec fn stage_paths_next(paths: Seq<Seq<char>>, o: Seq<Outcome>) -> Next<()> {
    if paths.len() == 0 {
        Next::Give(())
    } else {
        plain_command(o, seq!["add"@, "-A"@, "--"@] + paths)
    }
}

/// Taking paths out of the index: `reset`, and where that fails on a branch
/// without commits, dropping them from the index. Any other failure of `reset`
/// is the result.
pub open spec fn reset_next(
    o: Seq<Outcome>,
    reset: Seq<Seq<char>>,
    remove: Seq<Seq<char>>,
) -> Next<()> {
    if o.len() == 0 {
        Next::Run(reset)
    } else if o[0] is Ok {
        Next::Give(())
    } else if o.len() == 1 {
        Next::Run(seq!["rev-parse"@, "--verify"@, "HEAD"@])
    } else if o[1] is Ok {
        Next::Fail(o[0]->Err_0)
    } else if o.len() == 2 {
        Next::Run(remove)
    } else {
        match o[2] {
            Ok(_) => Next::Give(()),
            Err(e) => Next::Fail(e),
        }
    }
}

pub open spec fn unstage_paths_next(paths: Seq<Seq<char>>, o: Seq<Outcome>) -> Next<()> {
    if paths.len() == 0 {
        Next::Give(())
    } else {
        reset_next(
            o,
            seq!["reset"@, "-q"@, "--"@] + paths,
            seq!["rm"@, "--cached"@, "-r"@, "-q"@, "--"@] + paths,
        )
    }
}

/// The command that drops paths from the index is named only where the reset
/// failed and HEAD names no commit.
pub proof fn law_index_removal_needs_an_unborn_branch(
    o: Seq<Outcome>,
    reset: Seq<Seq<char>>,
    remove: Seq<Seq<char>>,
)
    requires
        reset != remove,
        remove != seq!["rev-parse"@, "--verify"@, "HEAD"@],
        reset_next(o, reset, remove) == Next::<()>::Run(remove),
    ensures
        o.len() == 2,
        o[0] is Err,
        o[1] is Err,
{
}

fn run_reset(replies: &[Result<String, String>], reset: Vec<String>, remove: Vec<String>) -> (r: Step<
    (),
>)
    ensures
        r.seen(|v: ()| v) == reset_next(outcomes(replies@), texts(reset@), texts(remove@)),
{
    if replies.len() == 0 {
        return Step::Run(reset);
    }
    match reply(replies, 0) {
        Ok(_) => Step::Done(Ok(())),
        Err(e) => {
            if replies.len() == 1 {
                let args = args_of(&["rev-parse", "--verify", "HEAD"]);
                assert(texts(args@) =~= seq!["rev-parse"@, "--verify"@, "HEAD"@]);
                return Step::Run(args);
            }
            match reply(replies, 1) {
                Ok(_) => Step::Done(Err(e)),
                Err(_) => {
                    if replies.len() == 2 {
                        return Step::Run(remove);
                    }
                    match reply(replies, 2) {
                        Ok(_) => Step::Done(Ok(())),
                        Err(e) => Step::Done(Err(e)),
                    }
                },
            }
        },
    }
}

/// The first line of a commit's output.
pub open spec fn commit_summary(out: Seq<char>) -> Seq<char> {
    if lines(out).len() > 0 {
        lines(out)[0]
    } else {
        "committed"@
    }
}

/// Throwing a file's changes away: untracked files are removed, tracked ones
/// restored from HEAD.
pub open spec fn discard_args(e: EntryView) -> Seq<Seq<char>> {
    if e.letter == 'U' {
        seq!["clean"@, "-fd"@, "--"@, e.path]
    } else {
        seq!["checkout"@, "HEAD"@, "--"@, e.path]
    }
}

/// The names that go with a diff: the changed files, then the untracked ones.
pub open spec fn names_next(o: Seq<Outcome>, i: int, args: Seq<Seq<char>>, diff: Seq<char>) -> Next<
    (Seq<char>, Seq<Seq<char>>),
> {
    if o.len() <= i {
        Next::Run(args)
    } else if o[i] is Err {
        Next::Fail(o[i]->Err_0)
    } else if o.len() == i + 1 {
        Next::Run(seq!["ls-files"@, "--others"@, "--exclude-standard"@])
    } else if o[i + 1] is Err {
        Next::Fail(o[i + 1]->Err_0)
    } else {
        Next::Give((diff, filled_lines(o[i]->Ok_0) + filled_lines(o[i + 1]->Ok_0)))
    }
}

/// The diff that a commit message describes: the staged one unless it is
/// blank, else that of the working tree.
pub open spec fn message_diff_next(o: Seq<Outcome>) -> Next<(Seq<char>, Seq<Seq<char>>)> {
    if o.len() == 0 {
        Next::Run(seq!["diff"@, "--cached"@, "--stat"@, "--patch"@])
    } else if o[0] is Err {
        Next::Fail(o[0]->Err_0)
    } else if trim(o[0]->Ok_0, Class::White).len() > 0 {
        names_next(o, 1, seq!["diff"@, "--cached"@, "--name-only"@], o[0]->Ok_0)
    } else if o.len() == 1 {
        Next::Run(seq!["diff"@, "--stat"@, "--patch"@])
    } else if o[1] is Err {
        Next::Fail(o[1]->Err_0)
    } else {
        names_next(o, 2, seq!["diff"@, "--name-only"@], o[1]->Ok_0)
    }
}

fn run_names(replies: &[Result<String, String>], i: usize, args: Vec<String>, diff: &String) -> (r: Step<
    (String, Vec<String>),
>)
    requires
        i <= 2,
    ensures
        r.seen(|v: (String, Vec<String>)| (v.0@, texts(v.1@))) == names_next(
            outcomes(replies@),
            i as int,
            texts(args@),
            diff@,
        ),
{
    if replies.len() <= i {
        return Step::Run(args);
    }
    match reply(replies, i) {
        Err(e) => Step::Done(Err(e)),
        Ok(out) => {
            if replies.len() == i + 1 {
                let args = args_of(&["ls-files", "--others", "--exclude-standard"]);
                assert(texts(args@) =~= seq!["ls-files"@, "--others"@, "--exclude-standard"@]);
                return Step::Run(args);
            }
            match reply(replies, i + 1) {
                Err(e) => Step::Done(Err(e)),
                Ok(others) => {
                    let mut files = lines_text(out.as_str());
                    let mut more = lines_text(others.as_str());
                    let ghost first = texts(files@);
                    let ghost second = texts(more@);
                    files.append(&mut more);
                    assert(texts(files@) =~= first + second);
                    Step::Done(Ok((diff.clone(), files)))
                },
            }
        },
    }
}

/// The first starred line at or after `i`, or the number of lines.
pub open spec fn star_at(v: Seq<Seq<char>>, i: int) -> int
    decreases v.len() - i,
{
    if i >= v.len() {
        v.len() as int
    } else if v[i].len() > 0 && v[i][0] == '*' {
        i
    } else {
        star_at(v, i + 1)
    }
}

/// The lines with the starred one before the others, which keep their order.
pub open spec fn current_first(v: Seq<Seq<char>>) -> Seq<Seq<char>> {
    let i = star_at(v, 0);
    if 0 <= i < v.len() {
        seq![v[i]] + v.remove(i)
    } else {
        v
    }
}

fn starred_to_front(list: Vec<String>) -> (r: Vec<String>)
    ensures
        texts(r@) == current_first(texts(list@)),
{
    let ghost all = texts(list@);
    let mut v = list;
    let mut i: usize = 0;
    while i < v.len()
        invariant
            i <= v@.len(),
            all == texts(v@),
            all == texts(list@),
            star_at(all, 0) == star_at(all, i as int),
        decreases v@.len() - i,
    {
        assert(all[i as int] == v@[i as int]@);
        let line = chars_of(v[i].as_str());
        if line.len() > 0 && line[0] == '*' {
            assert(star_at(all, i as int) == i);
            let current = v.remove(i);
            v.insert(0, current);
            assert(texts(v@) =~= seq![all[i as int]] + all.remove(i as int));
            return v;
        }
        i += 1;
    }
    v
}

/// The remotes of `remote -v` output: one line for each fetch line, with its
/// tab widened.
pub open spec fn remote_list(parts: Seq<Seq<char>>) -> Seq<Seq<char>>
    decreases parts.len(),
{
    if parts.len() == 0 {
        Seq::empty()
    } else if has_suffix(parts.last(), " (fetch)"@) {
        remote_list(parts.drop_last()).push(
            widened(parts.last().take(parts.last().len() - " (fetch)"@.len())),
        )
    } else {
        remote_list(parts.drop_last())
    }
}

/// `s` with each tab written as two spaces.
pub open spec fn widened(s: Seq<char>) -> Seq<char>
    decreases s.len(),
{
    if s.len() == 0 {
        Seq::empty()
    } else if s.last() == '\t' {
        widened(s.drop_last()).push(' ').push(' ')
    } else {
        widened(s.drop_last()).push(s.last())
    }
}

fn widen(v: &[char]) -> (r: Vec<char>)
    ensures
        r@ == widened(v@),
{
    let mut out: Vec<char> = Vec::new();
    let mut i: usize = 0;
    assert(v@.take(0) =~= Seq::empty());
    while i < v.len()
        invariant
            i <= v@.len(),
            out@ == widened(v@.take(i as int)),
        decreases v@.len() - i,
    {
        assert(v@.take(i + 1).drop_last() =~= v@.take(i as int));
        if v[i] == '\t' {
            out.push(' ');
            out.push(' ');
        } else {
            out.push(v[i]);
        }
        i += 1;
    }
    assert(v@.take(i as int) =~= v@);
    out
}

fn read_remotes(out: &str) -> (r: Vec<String>)
    ensures
        texts(r@) == remote_list(lines(out@)),
{
    let v = chars_of(out);
    let all = lines_of(&v);
    let tail = chars_of(" (fetch)");
    let mut r: Vec<String> = Vec::new();
    let mut i: usize = 0;
    let ghost parts = pieces(all@);
    assert(parts.take(0) =~= Seq::empty());
    assert(texts(r@) =~= Seq::empty());
    while i < all.len()
        invariant
            i <= all@.len(),
            parts == pieces(all@),
            tail@ == " (fetch)"@,
            texts(r@) == remote_list(parts.take(i as int)),
        decreases all@.len() - i,
    {
        proof {
            assert(parts.take(i + 1).drop_last() =~= parts.take(i as int));
            assert(parts.take(i + 1).last() == all@[i as int]@);
        }
        let line = &all[i];
        if ends_with(line, &tail) {
            let head = slice_of(line, 0, line.len() - tail.len());
            assert(head@ =~= line@.take(line@.len() - tail@.len()));
            let wide = widen(&head);
            let s = text_of(&wide);
            let ghost before = r@;
            r.push(s);
            assert(texts(r@) =~= texts(before).push(s@));
        }
        i += 1;
    }
    assert(parts.take(i as int) =~= parts);
    r
}

/// The commit that a listing of a commit and its parents names second, or the
/// empty tree.
pub open spec fn first_parent(out: Seq<char>) -> Seq<char> {
    if words(out).len() > 1 {
        words(out)[1]
    } else {
        EMPTY_TREE@
    }
}

fn read_first_parent(out: &str) -> (r: String)
    ensures
        r@ == first_parent(out@),
{
    let v = chars_of(out);
    let found = words_of(&v);
    assert(found@.len() == pieces(found@).len());
    if found.len() > 1 {
        assert(pieces(found@)[1] == found@[1]@);
        text_of(&found[1])
    } else {
        EMPTY_TREE.to_string()
    }
}

/// The files between two revisions, from the replies that list their names and
/// their counts.
pub open spec fn range_list(
    names: Seq<char>,
    stats: Outcome,
    old_spec: Seq<char>,
    new_spec: Seq<char>,
) -> Seq<RefFileView> {
    let map = match stats {
        Ok(raw) => stat_map(stat_rows(split(raw, '\0'), 0)),
        Err(_) => Map::empty(),
    };
    changed_files(split(names, '\0'), 0).map_values(
        |e: EntryView| RefFileView { entry: with_stat(e, map), old_spec, new_spec },
    )
}

pub open spec fn range_next(
    o: Seq<Outcome>,
    i: int,
    old_spec: Seq<char>,
    new_spec: Seq<char>,
) -> Next<Seq<RefFileView>> {
    if o.len() <= i {
        Next::Run(
            seq![
                "diff"@,
                "--name-status"@,
                "-z"@,
                "-M"@,
                "--ignore-submodules=none"@,
                "--no-ext-diff"@,
                old_spec,
                new_spec,
            ],
        )
    } else if o[i] is Err {
        Next::Fail(o[i]->Err_0)
    } else if o.len() == i + 1 {
        Next::Run(
            seq![
                "diff"@,
                "--numstat"@,
                "-z"@,
                "-M"@,
                "--ignore-submodules=all"@,
                "--no-ext-diff"@,
                old_spec,
                new_spec,
            ],
        )
    } else {
        Next::Give(range_list(o[i]->Ok_0, o[i + 1], old_spec, new_spec))
    }
}

fn read_range(names: &str, stats: &StringHashMap<DiffStat>, old_spec: &str, new_spec: &str) -> (r: Vec<
    RefFile,
>)
    ensures
        ref_files_view(r@) == changed_files(split(names@, '\0'), 0).map_values(
            |e: EntryView|
                RefFileView {
                    entry: with_stat(e, stats@),
                    old_spec: old_spec@,
                    new_spec: new_spec@,
                },
        ),
{
    let mut list = parse_name_status(names);
    let ghost want = entries(list@).map_values(
        |e: EntryView|
            RefFileView { entry: with_stat(e, stats@), old_spec: old_spec@, new_spec: new_spec@ },
    );
    let ghost named_files = entries(list@);
    attach_stats(&mut list, stats);
    proof {
        assert(list@.len() == entries(list@).len());
        assert forall|k: int| 0 <= k < list@.len() implies want[k] == (RefFileView {
            entry: #[trigger] entries(list@)[k],
            old_spec: old_spec@,
            new_spec: new_spec@,
        }) by {
            assert(entries(list@)[k] == with_stat(named_files[k], stats@));
        }
    }
    let mut out: Vec<RefFile> = Vec::new();
    let mut i: usize = 0;
    while i < list.len()
        invariant
            i <= list@.len(),
            list@.len() == want.len(),
            forall|k: int|
                0 <= k < list@.len() ==> want[k] == (RefFileView {
                    entry: entries(list@)[k],
                    old_spec: old_spec@,
                    new_spec: new_spec@,
                }),
            ref_files_view(out@) =~= want.take(i as int),
        decreases list@.len() - i,
    {
        let f = RefFile {
            entry: list[i].clone(),
            old_spec: old_spec.to_string(),
            new_spec: new_spec.to_string(),
        };
        assert(f@ == want[i as int]);
        let ghost before = out@;
        out.push(f);
        assert(ref_files_view(out@) =~= ref_files_view(before).push(f@));
        i += 1;
    }
    assert(want.take(i as int) =~= want);
    out
}

/// The files that a commit-ish introduces relative to its first parent.
pub open spec fn ref_files_next(spec: Seq<char>, o: Seq<Outcome>) -> Next<Seq<RefFileView>> {
    if o.len() == 0 {
        Next::Run(seq!["rev-parse"@, "--verify"@, spec + "^{commit}"@])
    } else if o[0] is Err {
        Next::Fail(o[0]->Err_0)
    } else {
        commit_files_next(o, trim(o[0]->Ok_0, Class::White))
    }
}

/// The files between a commit and its first parent, from the second reply on.
pub open spec fn commit_files_next(o: Seq<Outcome>, commit: Seq<char>) -> Next<Seq<RefFileView>> {
    if o.len() == 1 {
        Next::Run(seq!["rev-list"@, "--parents"@, "-n"@, "1"@, commit])
    } else if o[1] is Err {
        Next::Fail(o[1]->Err_0)
    } else {
        range_next(o, 2, first_parent(o[1]->Ok_0), commit)
    }
}

/// A stash's tracked snapshot plus its saved untracked files, the latter less
/// those whose path the snapshot already has.
pub open spec fn stash_files_next(spec: Seq<char>, o: Seq<Outcome>) -> Next<Seq<RefFileView>> {
    if o.len() == 0 {
        Next::Run(seq!["rev-parse"@, "--verify"@, spec])
    } else if o[0] is Err {
        Next::Fail(o[0]->Err_0)
    } else {
        let commit = trim(o[0]->Ok_0, Class::White);
        match commit_files_next(o, commit) {
            Next::Give(files) => if o.len() == 4 {
                Next::Run(seq!["rev-parse"@, "--verify"@, commit + "^3"@])
            } else if o[4] is Err {
                Next::Give(files)
            } else {
                match range_next(o, 5, EMPTY_TREE@, trim(o[4]->Ok_0, Class::White)) {
                    Next::Give(more) => Next::Give(files + unseen(files, more)),
                    other => other,
                }
            },
            other => other,
        }
    }
}

/// Whether a file among `files` has the path.
pub open spec fn has_path(files: Seq<RefFileView>, path: Seq<char>) -> bool {
    exists|i: int| 0 <= i < files.len() && (#[trigger] files[i]).entry.path == path
}

/// The files of `more` whose path no file of `files` has.
pub open spec fn unseen(files: Seq<RefFileView>, more: Seq<RefFileView>) -> Seq<RefFileView>
    decreases more.len(),
{
    if more.len() == 0 {
        Seq::empty()
    } else if has_path(files, more.last().entry.path) {
        unseen(files, more.drop_last())
    } else {
        unseen(files, more.drop_last()).push(more.last())
    }
}

fn path_seen(files: &Vec<RefFile>, upto: usize, path: &str) -> (r: bool)
    requires
        upto <= files@.len(),
    ensures
        r == has_path(ref_files_view(files@).take(upto as int), path@),
{
    let mut i: usize = 0;
    while i < upto
        invariant
            i <= upto <= files@.len(),
            forall|k: int| 0 <= k < i ==> files@[k]@.entry.path != path@,
        decreases upto - i,
    {
        if eq_text(files[i].entry.path.as_str(), path) {
            assert(ref_files_view(files@).take(upto as int)[i as int].entry.path == path@);
            return true;
        }
        i += 1;
    }
    assert forall|k: int| 0 <= k < upto implies (#[trigger] ref_files_view(files@).take(
        upto as int,
    )[k]).entry.path != path@ by {
        assert(ref_files_view(files@).take(upto as int)[k] == files@[k]@);
    }
    false
}

fn add_unseen(mut files: Vec<RefFile>, more: &Vec<RefFile>) -> (r: Vec<RefFile>)
    ensures
        ref_files_view(r@) == ref_files_view(files@) + unseen(
            ref_files_view(files@),
            ref_files_view(more@),
        ),
{
    let upto = files.len();
    let ghost first = ref_files_view(files@);
    let ghost extra = ref_files_view(more@);
    let mut i: usize = 0;
    assert(extra.take(0) =~= Seq::empty());
    assert(first + unseen(first, extra.take(0)) =~= first);
    while i < more.len()
        invariant
            i <= more@.len(),
            upto == first.len(),
            extra == ref_files_view(more@),
            ref_files_view(files@) == first + unseen(first, extra.take(i as int)),
        decreases more@.len() - i,
    {
        let f = &more[i];
        proof {
            assert(extra.take(i + 1).drop_last() =~= extra.take(i as int));
            assert(extra.take(i + 1).last() == f@);
            assert(ref_files_view(files@).take(upto as int) =~= first);
            assert(files@.len() == ref_files_view(files@).len());
        }
        if !path_seen(&files, upto, f.entry.path.as_str()) {
            let c = f.clone();
            let ghost before = files@;
            files.push(c);
            proof {
                assert(ref_files_view(files@) =~= ref_files_view(before).push(f@));
                assert(first + unseen(first, extra.take(i + 1)) =~= (first + unseen(
                    first,
                    extra.take(i as int),
                )).push(f@));
            }
        }
        i += 1;
    }
    assert(extra.take(i as int) =~= extra);
    files
}

/// The line that says why a command failed: the first line of its error output
/// that is not blank, trimmed.
pub open spec fn failure_line(parts: Seq<Seq<char>>) -> Seq<char>
    decreases parts.len(),
{
    if parts.len() == 0 {
        "git failed"@
    } else if trim(parts[0], Class::White).len() > 0 {
        trim(parts[0], Class::White)
    } else {
        failure_line(parts.subrange(1, parts.len() as int))
    }
}

/// The line that says why a command failed, from its error output.
pub fn failure(stderr: &str) -> (r: String)
    ensures
        r@ == failure_line(lines(stderr@)),
{
    let v = chars_of(stderr);
    let all = lines_of(&v);
    let ghost parts = pieces(all@);
    let mut i: usize = 0;
    assert(parts.subrange(0, parts.len() as int) =~= parts);
    while i < all.len()
        invariant
            i <= all@.len(),
            parts == pieces(all@),
            parts == lines(stderr@),
            failure_line(parts) == failure_line(parts.subrange(i as int, parts.len() as int)),
        decreases all@.len() - i,
    {
        let line = trimmed(&all[i], Class::White);
        let ghost rest = parts.subrange(i as int, parts.len() as int);
        assert(rest[0] == all@[i as int]@);
        if line.len() > 0 {
            return text_of(&line);
        }
        assert(rest.subrange(1, rest.len() as int) =~= parts.subrange(i + 1, parts.len() as int));
        i += 1;
    }
    "git failed".to_string()
}

impl Git {
    /// A repository with this top-level directory.
    pub fn at_root(root: &str) -> (r: Git)
        ensures
            r@ == root@,
    {
        Git { root: root.to_string() }
    }

    /// All repositories that a search found, each once: that of the directory itself,
    /// which `found` begins with, before those below it, and these by path.
    pub fn discover_all(found: Vec<Result<Git, String>>) -> (r: Vec<Git>)
        ensures
            visible_roots(found@, roots(r@)),
    {
        let list = Git::each_once(&found);
        let own = found.len() > 0 && found[0].is_ok();
        let mut keys: Vec<SortKey> = Vec::new();
        let mut i: usize = 0;
        while i < list.len()
            invariant
                i <= list@.len(),
                keys_view(keys@) =~= root_keys(roots(list@), own).take(i as int),
            decreases list@.len() - i,
        {
            let v = chars_of(list[i].root.as_str());
            let key = SortKey {
                rank: if own && i == 0 {
                    (0, 0, 0, 0, 0)
                } else {
                    (1, 0, 0, 0, 0)
                },
                text: replace(&v, '/', '\0'),
            };
            let ghost before = keys_view(keys@);
            keys.push(key);
            assert(keys_view(keys@) =~= before.push(key@));
            assert(roots(list@)[i as int] == list@[i as int]@);
            assert(root_keys(roots(list@), own)[i as int] == key@);
            i += 1;
        }
        assert(keys_view(keys@) =~= root_keys(roots(list@), own));
        assert(keys@.len() == keys_view(keys@).len());
        assert(list.len() == roots(list@).len());
        let order = sorted_order(&keys);
        let mut out: Vec<Git> = Vec::new();
        let mut k: usize = 0;
        while k < order.len()
            invariant
                k <= order@.len(),
                order@.len() == list@.len(),
                out@.len() == k,
                forall|j: int| 0 <= j < order@.len() ==> (#[trigger] order@[j]) < list@.len(),
                forall|j: int|
                    0 <= j < k ==> (#[trigger] out@[j])@ == roots(list@)[order@[j] as int],
            decreases order@.len() - k,
        {
            let place = order[k];
            out.push(list[place].clone());
            assert(roots(list@)[place as int] == list@[place as int]@);
            k += 1;
        }
        proof {
            assert forall|j: int| 0 <= j < order@.len() implies #[trigger] roots(out@)[j]
                == roots(list@)[order@[j] as int] by {
                assert(roots(out@)[j] == out@[j]@);
            }
            lemma_sorted_roots(found@, roots(list@), order@, roots(out@));
        }
        out
    }

    /// The repositories among `found`, each once, in order.
    fn each_once(found: &Vec<Result<Git, String>>) -> (r: Vec<Git>)
        ensures
            roots(r@) == dedupe(found_roots(found@)),
    {
        let mut out: Vec<Git> = Vec::new();
        let mut i: usize = 0;
        assert(found@.take(0) =~= Seq::empty());
        assert(roots(out@) =~= Seq::empty());
        while i < found.len()
            invariant
                i <= found@.len(),
                roots(out@) == dedupe(found_roots(found@.take(i as int))),
            decreases found@.len() - i,
        {
            let ghost seen = found_roots(found@.take(i as int));
            proof {
                assert(found@.take(i + 1).drop_last() =~= found@.take(i as int));
                assert(found@.take(i + 1).last() == found@[i as int]);
            }
            match &found[i] {
                Ok(g) => {
                    assert(seen.push(g@).drop_last() =~= seen);
                    if !Git::known(&out, g) {
                        let ghost before = out@;
                        let c = g.clone();
                        out.push(c);
                        assert(roots(out@) =~= roots(before).push(g@));
                    }
                },
                Err(_) => {},
            }
            i += 1;
        }
        assert(found@.take(i as int) =~= found@);
        out
    }

    fn known(list: &Vec<Git>, g: &Git) -> (r: bool)
        ensures
            r == roots(list@).contains(g@),
    {
        let mut i: usize = 0;
        while i < list.len()
            invariant
                i <= list@.len(),
                forall|k: int| 0 <= k < i ==> list@[k]@ != g@,
            decreases list@.len() - i,
        {
            if list[i].root == g.root {
                assert(roots(list@)[i as int] == g@);
                return true;
            }
            i += 1;
        }
        assert forall|k: int| 0 <= k < roots(list@).len() implies roots(list@)[k] != g@ by {
            assert(roots(list@)[k] == list@[k]@);
        }
        false
    }

    /// The top-level directory.
    pub fn root(&self) -> (r: &str)
        ensures
            r@ == self@,
    {
        self.root.as_str()
    }

    /// The name to show: that of the top-level directory, or its whole path
    /// where that has no name.
    pub fn name(&self) -> (r: String)
        ensures
            r@ == (match file_name(self@) {
                Some(n) => n,
                None => self@,
            }),
    {
        match last_name(self.root.as_str()) {
            Some(n) => n,
            None => self.root.clone(),
        }
    }

    /// Pulls (rebasing, with autostash), then pushes.
    pub fn sync(&self, replies: &[Result<String, String>]) -> (r: Step<String>)
        ensures
            r.seen(|s: String| s@) == sync_next(outcomes(replies@)),
    {
        if replies.len() == 0 {
            let args = args_of(&["pull", "--rebase", "--autostash"]);
            assert(texts(args@) =~= seq!["pull"@, "--rebase"@, "--autostash"@]);
            return Step::Run(args);
        }
        match reply(replies, 0) {
            Err(e) => Step::Done(Err(e)),
            Ok(_) => {
                if replies.len() == 1 {
                    let args = args_of(&["push"]);
                    assert(texts(args@) =~= seq!["push"@]);
                    return Step::Run(args);
                }
                match reply(replies, 1) {
                    Err(e) => Step::Done(Err(e)),
                    Ok(_) => Step::Done(Ok("synced with remote".to_string())),
                }
            },
        }
    }

    /// Reads the status with its line counts. Untracked files get theirs from
    /// [`count_untracked`].
    pub fn status(&self, replies: &[Result<String, String>]) -> (r: Step<Status>)
        ensures
            r.seen(|s: Status| s@) == status_next(outcomes(replies@)),
    {
        if replies.len() == 0 {
            let args = args_of(
                &["status", "--porcelain", "-z", "--branch", "--untracked-files=all"],
            );
            assert(texts(args@) =~= seq![
                "status"@,
                "--porcelain"@,
                "-z"@,
                "--branch"@,
                "--untracked-files=all"@,
            ]);
            return Step::Run(args);
        }
        match reply(replies, 0) {
            Err(e) => Step::Done(Err(e)),
            Ok(out) => {
                if replies.len() == 1 {
                    let args = args_of(
                        &["diff", "--numstat", "-z", "-M", "--ignore-submodules=all", "--no-ext-diff"],
                    );
                    assert(texts(args@) =~= seq![
                        "diff"@,
                        "--numstat"@,
                        "-z"@,
                        "-M"@,
                        "--ignore-submodules=all"@,
                        "--no-ext-diff"@,
                    ]);
                    return Step::Run(args);
                }
                if replies.len() == 2 {
                    let args = args_of(
                        &[
                            "diff",
                            "--cached",
                            "--numstat",
                            "-z",
                            "-M",
                            "--ignore-submodules=all",
                            "--no-ext-diff",
                        ],
                    );
                    assert(texts(args@) =~= seq![
                        "diff"@,
                        "--cached"@,
                        "--numstat"@,
                        "-z"@,
                        "-M"@,
                        "--ignore-submodules=all"@,
                        "--no-ext-diff"@,
                    ]);
                    return Step::Run(args);
                }
                let mut status = parse_status(out.as_str());
                count_list(&mut status.unstaged, replies, 1);
                count_list(&mut status.staged, replies, 2);
                Step::Done(Ok(status))
            },
        }
    }

    /// Stages one entry.
    pub fn stage(&self, entry: &FileEntry, replies: &[Result<String, String>]) -> (r: Step<()>)
        ensures
            r.seen(|v: ()| v) == stage_paths_next(dedupe(touched(entry@)), outcomes(replies@)),
    {
        let paths = one_entry_paths(entry);
        self.stage_paths(&paths, replies)
    }

    pub fn stage_paths(&self, paths: &Vec<String>, replies: &[Result<String, String>]) -> (r: Step<()>)
        ensures
            r.seen(|v: ()| v) == stage_paths_next(texts(paths@), outcomes(replies@)),
    {
        if paths.len() == 0 {
            return Step::Done(Ok(()));
        }
        let args = args_of(&["add", "-A", "--"]);
        assert(texts(args@) =~= seq!["add"@, "-A"@, "--"@]);
        let args = with_paths(args, paths);
        run_plain(replies, args)
    }

    pub fn stage_all(&self, replies: &[Result<String, String>]) -> (r: Step<()>)
        ensures
            r.seen(|v: ()| v) == plain_command(outcomes(replies@), seq!["add"@, "-A"@]),
    {
        let args = args_of(&["add", "-A"]);
        assert(texts(args@) =~= seq!["add"@, "-A"@]);
        run_plain(replies, args)
    }

    /// Unstages one entry, its rename source with it.
    pub fn unstage(&self, entry: &FileEntry, replies: &[Result<String, String>]) -> (r: Step<()>)
        ensures
            r.seen(|v: ()| v) == unstage_paths_next(dedupe(touched(entry@)), outcomes(replies@)),
    {
        let paths = one_entry_paths(entry);
        self.unstage_paths(&paths, replies)
    }

    pub fn unstage_paths(&self, paths: &Vec<String>, replies: &[Result<String, String>]) -> (r: Step<
        (),
    >)
        ensures
            r.seen(|v: ()| v) == unstage_paths_next(texts(paths@), outcomes(replies@)),
    {
        if paths.len() == 0 {
            return Step::Done(Ok(()));
        }
        let reset = args_of(&["reset", "-q", "--"]);
        assert(texts(reset@) =~= seq!["reset"@, "-q"@, "--"@]);
        let reset = with_paths(reset, paths);
        let remove = args_of(&["rm", "--cached", "-r", "-q", "--"]);
        assert(texts(remove@) =~= seq!["rm"@, "--cached"@, "-r"@, "-q"@, "--"@]);
        let remove = with_paths(remove, paths);
        run_reset(replies, reset, remove)
    }

    pub fn unstage_all(&self, replies: &[Result<String, String>]) -> (r: Step<()>)
        ensures
            r.seen(|v: ()| v) == reset_next(
                outcomes(replies@),
                seq!["reset"@, "-q"@],
                seq!["rm"@, "--cached"@, "-r"@, "-q"@, "--"@, "."@],
            ),
    {
        let reset = args_of(&["reset", "-q"]);
        assert(texts(reset@) =~= seq!["reset"@, "-q"@]);
        let remove = args_of(&["rm", "--cached", "-r", "-q", "--", "."]);
        assert(texts(remove@) =~= seq!["rm"@, "--cached"@, "-r"@, "-q"@, "--"@, "."@]);
        run_reset(replies, reset, remove)
    }

    /// Commits what is staged and gives git's summary line.
    pub fn commit(&self, message: &str, replies: &[Result<String, String>]) -> (r: Step<String>)
        ensures
            r.seen(|s: String| s@) == one_command(
                outcomes(replies@),
                seq!["commit"@, "-m"@, message@],
                |out: Seq<char>| commit_summary(out),
            ),
    {
        if replies.len() == 0 {
            let args = args_of(&["commit", "-m", message]);
            assert(texts(args@) =~= seq!["commit"@, "-m"@, message@]);
            return Step::Run(args);
        }
        match reply(replies, 0) {
            Err(e) => Step::Done(Err(e)),
            Ok(out) => {
                let v = chars_of(out.as_str());
                let all = lines_of(&v);
                assert(all@.len() == pieces(all@).len());
                if all.len() > 0 {
                    assert(pieces(all@)[0] == all@[0]@);
                    Step::Done(Ok(text_of(&all[0])))
                } else {
                    Step::Done(Ok("committed".to_string()))
                }
            },
        }
    }

    /// Throws away a file's changes: an untracked file is removed, a tracked one
    /// restored from HEAD.
    pub fn discard(&self, entry: &FileEntry, replies: &[Result<String, String>]) -> (r: Step<()>)
        ensures
            r.seen(|v: ()| v) == plain_command(outcomes(replies@), discard_args(entry@)),
    {
        if entry.letter == 'U' {
            let args = args_of(&["clean", "-fd", "--", entry.path.as_str()]);
            assert(texts(args@) =~= discard_args(entry@));
            run_plain(replies, args)
        } else {
            let args = args_of(&["checkout", "HEAD", "--", entry.path.as_str()]);
            assert(texts(args@) =~= discard_args(entry@));
            run_plain(replies, args)
        }
    }

    /// The diff that a suggested commit message describes, and its files.
    pub fn diff_for_message(&self, replies: &[Result<String, String>]) -> (r: Step<
        (String, Vec<String>),
    >)
        ensures
            r.seen(|v: (String, Vec<String>)| (v.0@, texts(v.1@))) == message_diff_next(
                outcomes(replies@),
            ),
    {
        if replies.len() == 0 {
            let args = args_of(&["diff", "--cached", "--stat", "--patch"]);
            assert(texts(args@) =~= seq!["diff"@, "--cached"@, "--stat"@, "--patch"@]);
            return Step::Run(args);
        }
        match reply(replies, 0) {
            Err(e) => Step::Done(Err(e)),
            Ok(staged) => {
                let v = chars_of(staged.as_str());
                let body = trimmed(&v, Class::White);
                if body.len() > 0 {
                    let args = args_of(&["diff", "--cached", "--name-only"]);
                    assert(texts(args@) =~= seq!["diff"@, "--cached"@, "--name-only"@]);
                    return run_names(replies, 1, args, staged);
                }
                if replies.len() == 1 {
                    let args = args_of(&["diff", "--stat", "--patch"]);
                    assert(texts(args@) =~= seq!["diff"@, "--stat"@, "--patch"@]);
                    return Step::Run(args);
                }
                match reply(replies, 1) {
                    Err(e) => Step::Done(Err(e)),
                    Ok(unstaged) => {
                        let args = args_of(&["diff", "--name-only"]);
                        assert(texts(args@) =~= seq!["diff"@, "--name-only"@]);
                        run_names(replies, 2, args, unstaged)
                    },
                }
            },
        }
    }

    /// Local and remote branches, the current one first and starred.
    pub fn branches(&self, replies: &[Result<String, String>]) -> (r: Step<Vec<String>>)
        ensures
            r.seen(|v: Vec<String>| texts(v@)) == one_command(
                outcomes(replies@),
                seq!["branch"@, "-a"@, "--sort=-committerdate"@, "--format=%(HEAD) %(refname:short)"@],
                |out: Seq<char>| current_first(filled_lines(out)),
            ),
    {
        let args = args_of(&["branch", "-a", "--sort=-committerdate", "--format=%(HEAD) %(refname:short)"]);
        assert(texts(args@) =~= seq!["branch"@, "-a"@, "--sort=-committerdate"@, "--format=%(HEAD) %(refname:short)"@]);
        if replies.len() == 0 {
            return Step::Run(args);
        }
        match reply(replies, 0) {
            Ok(out) => Step::Done(Ok(starred_to_front(lines_text(out.as_str())))),
            Err(e) => Step::Done(Err(e)),
        }
    }

    pub fn stashes(&self, replies: &[Result<String, String>]) -> (r: Step<Vec<String>>)
        ensures
            r.seen(|v: Vec<String>| texts(v@)) == line_command(
                outcomes(replies@),
                seq!["stash"@, "list"@],
            ),
    {
        let args = args_of(&["stash", "list"]);
        assert(texts(args@) =~= seq!["stash"@, "list"@]);
        run_lines(replies, args)
    }

    pub fn tags(&self, replies: &[Result<String, String>]) -> (r: Step<Vec<String>>)
        ensures
            r.seen(|v: Vec<String>| texts(v@)) == line_command(
                outcomes(replies@),
                seq!["tag"@, "--sort=-creatordate"@],
            ),
    {
        let args = args_of(&["tag", "--sort=-creatordate"]);
        assert(texts(args@) =~= seq!["tag"@, "--sort=-creatordate"@]);
        run_lines(replies, args)
    }

    /// One line per worktree.
    pub fn worktrees(&self, replies: &[Result<String, String>]) -> (r: Step<Vec<String>>)
        ensures
            r.seen(|v: Vec<String>| texts(v@)) == line_command(
                outcomes(replies@),
                seq!["worktree"@, "list"@],
            ),
    {
        let args = args_of(&["worktree", "list"]);
        assert(texts(args@) =~= seq!["worktree"@, "list"@]);
        run_lines(replies, args)
    }

    /// The history as a graph, `limit` entries long.
    pub fn graph(&self, limit: usize, replies: &[Result<String, String>]) -> (r: Step<Vec<String>>)
        ensures
            r.seen(|v: Vec<String>| texts(v@)) == line_command(
                outcomes(replies@),
                seq!["log"@, "--graph"@, "--oneline"@, "--decorate=short"@, last_entries(limit)],
            ),
    {
        let n = last_arg(limit);
        let args = args_of(&["log", "--graph", "--oneline", "--decorate=short", n.as_str()]);
        assert(texts(args@) =~= seq!["log"@, "--graph"@, "--oneline"@, "--decorate=short"@, last_entries(limit)]);
        run_lines(replies, args)
    }

    /// The last `limit` commits.
    pub fn commits(&self, limit: usize, replies: &[Result<String, String>]) -> (r: Step<Vec<String>>)
        ensures
            r.seen(|v: Vec<String>| texts(v@)) == line_command(
                outcomes(replies@),
                seq!["log"@, "--oneline"@, "--decorate=short"@, "--date=short"@, last_entries(limit)],
            ),
    {
        let n = last_arg(limit);
        let args = args_of(&["log", "--oneline", "--decorate=short", "--date=short", n.as_str()]);
        assert(texts(args@) =~= seq!["log"@, "--oneline"@, "--decorate=short"@, "--date=short"@, last_entries(limit)]);
        run_lines(replies, args)
    }

    /// The last `limit` commits that touched a file, following renames.
    pub fn file_history(&self, path: &str, limit: usize, replies: &[Result<String, String>]) -> (r: Step<
        Vec<FileHistoryEntry>,
    >)
        ensures
            r.seen(|v: Vec<FileHistoryEntry>| history_view(v@)) == one_command(
                outcomes(replies@),
                seq!["log"@, last_entries(limit), "--follow"@, "-M"@, "-z"@, "--name-status"@, "--format=%x1e%H%x00%P%x00%s%x00"@, "--"@, path@],
                |out: Seq<char>| history_entries(split(out, '\x1e').drop_first()),
            ),
    {
        if replies.len() == 0 {
            let n = last_arg(limit);
            let args = args_of(
                &[
                    "log",
                    n.as_str(),
                    "--follow",
                    "-M",
                    "-z",
                    "--name-status",
                    "--format=%x1e%H%x00%P%x00%s%x00",
                    "--",
                    path,
                ],
            );
            assert(texts(args@) =~= seq!["log"@, last_entries(limit), "--follow"@, "-M"@, "-z"@, "--name-status"@, "--format=%x1e%H%x00%P%x00%s%x00"@, "--"@, path@]);
            return Step::Run(args);
        }
        match reply(replies, 0) {
            Err(e) => Step::Done(Err(e)),
            Ok(out) => Step::Done(Ok(parse_file_history(out.as_str()))),
        }
    }

    /// The remotes, one line each.
    pub fn remotes(&self, replies: &[Result<String, String>]) -> (r: Step<Vec<String>>)
        ensures
            r.seen(|v: Vec<String>| texts(v@)) == one_command(
                outcomes(replies@),
                seq!["remote"@, "-v"@],
                |out: Seq<char>| remote_list(lines(out)),
            ),
    {
        if replies.len() == 0 {
            let args = args_of(&["remote", "-v"]);
            assert(texts(args@) =~= seq!["remote"@, "-v"@]);
            return Step::Run(args);
        }
        match reply(replies, 0) {
            Err(e) => Step::Done(Err(e)),
            Ok(out) => Step::Done(Ok(read_remotes(out.as_str()))),
        }
    }

    fn range_files(
        &self,
        old_spec: &str,
        new_spec: &str,
        replies: &[Result<String, String>],
        i: usize,
    ) -> (r: Step<Vec<RefFile>>)
        requires
            i <= 5,
        ensures
            r.seen(|v: Vec<RefFile>| ref_files_view(v@)) == range_next(
                outcomes(replies@),
                i as int,
                old_spec@,
                new_spec@,
            ),
    {
        if replies.len() <= i {
            let args = args_of(
                &[
                    "diff",
                    "--name-status",
                    "-z",
                    "-M",
                    "--ignore-submodules=none",
                    "--no-ext-diff",
                    old_spec,
                    new_spec,
                ],
            );
            assert(texts(args@) =~= seq![
                "diff"@,
                "--name-status"@,
                "-z"@,
                "-M"@,
                "--ignore-submodules=none"@,
                "--no-ext-diff"@,
                old_spec@,
                new_spec@,
            ]);
            return Step::Run(args);
        }
        match reply(replies, i) {
            Err(e) => Step::Done(Err(e)),
            Ok(names) => {
                if replies.len() == i + 1 {
                    let args = args_of(
                        &[
                            "diff",
                            "--numstat",
                            "-z",
                            "-M",
                            "--ignore-submodules=all",
                            "--no-ext-diff",
                            old_spec,
                            new_spec,
                        ],
                    );
                    assert(texts(args@) =~= seq![
                        "diff"@,
                        "--numstat"@,
                        "-z"@,
                        "-M"@,
                        "--ignore-submodules=all"@,
                        "--no-ext-diff"@,
                        old_spec@,
                        new_spec@,
                    ]);
                    return Step::Run(args);
                }
                let stats = match reply(replies, i + 1) {
                    Ok(raw) => parse_numstat(raw.as_str()),
                    Err(_) => StringHashMap::new(),
                };
                Step::Done(Ok(read_range(names.as_str(), &stats, old_spec, new_spec)))
            },
        }
    }

    /// The files between a commit and its first parent, from the second reply
    /// on.
    fn commit_files(&self, commit: &str, replies: &[Result<String, String>]) -> (r: Step<Vec<RefFile>>)
        requires
            replies@.len() >= 1,
        ensures
            r.seen(|v: Vec<RefFile>| ref_files_view(v@)) == commit_files_next(
                outcomes(replies@),
                commit@,
            ),
    {
        if replies.len() == 1 {
            let args = args_of(&["rev-list", "--parents", "-n", "1", commit]);
            assert(texts(args@) =~= seq!["rev-list"@, "--parents"@, "-n"@, "1"@, commit@]);
            return Step::Run(args);
        }
        match reply(replies, 1) {
            Err(e) => Step::Done(Err(e)),
            Ok(out) => {
                let old_spec = read_first_parent(out.as_str());
                self.range_files(old_spec.as_str(), commit, replies, 2)
            },
        }
    }

    /// Files introduced by a commit-ish relative to its first parent.
    pub fn ref_files(&self, spec: &str, replies: &[Result<String, String>]) -> (r: Step<Vec<RefFile>>)
        ensures
            r.seen(|v: Vec<RefFile>| ref_files_view(v@)) == ref_files_next(
                spec@,
                outcomes(replies@),
            ),
    {
        if replies.len() == 0 {
            let mut peeled = chars_of(spec);
            push_text(&mut peeled, "^{commit}");
            let peeled = text_of(&peeled);
            let args = args_of(&["rev-parse", "--verify", peeled.as_str()]);
            assert(texts(args@) =~= seq!["rev-parse"@, "--verify"@, spec@ + "^{commit}"@]);
            return Step::Run(args);
        }
        match reply(replies, 0) {
            Err(e) => Step::Done(Err(e)),
            Ok(out) => {
                let v = chars_of(out.as_str());
                let commit = trimmed(&v, Class::White);
                let commit = text_of(&commit);
                self.commit_files(commit.as_str(), replies)
            },
        }
    }

    /// A stash's tracked snapshot plus any saved untracked files.
    pub fn stash_files(&self, spec: &str, replies: &[Result<String, String>]) -> (r: Step<Vec<RefFile>>)
        ensures
            r.seen(|v: Vec<RefFile>| ref_files_view(v@)) == stash_files_next(
                spec@,
                outcomes(replies@),
            ),
    {
        if replies.len() == 0 {
            let args = args_of(&["rev-parse", "--verify", spec]);
            assert(texts(args@) =~= seq!["rev-parse"@, "--verify"@, spec@]);
            return Step::Run(args);
        }
        let out = match reply(replies, 0) {
            Err(e) => {
                return Step::Done(Err(e));
            },
            Ok(out) => out,
        };
        let v = chars_of(out.as_str());
        let commit = trimmed(&v, Class::White);
        let name = text_of(&commit);
        let files = match self.commit_files(name.as_str(), replies) {
            Step::Done(Ok(files)) => files,
            other => {
                return other;
            },
        };
        if replies.len() == 4 {
            let mut third = commit;
            push_text(&mut third, "^3");
            let third = text_of(&third);
            let args = args_of(&["rev-parse", "--verify", third.as_str()]);
            assert(texts(args@) =~= seq!["rev-parse"@, "--verify"@, name@ + "^3"@]);
            return Step::Run(args);
        }
        match reply(replies, 4) {
            Err(_) => Step::Done(Ok(files)),
            Ok(untracked) => {
                let v = chars_of(untracked.as_str());
                let tree = trimmed(&v, Class::White);
                let tree = text_of(&tree);
                match self.range_files(EMPTY_TREE, tree.as_str(), replies, 5) {
                    Step::Done(Ok(more)) => Step::Done(Ok(add_unseen(files, &more))),
                    other => other,
                }
            },
        }
    }

    /// Runs an arbitrary git command in this repository.
    pub fn raw(&self, args: &[&str], replies: &[Result<String, String>]) -> (r: Step<String>)
        ensures
            r.seen(|s: String| s@) == one_command(
                outcomes(replies@),
                strs(args@),
                |out: Seq<char>| out,
            ),
    {
        if replies.len() == 0 {
            return Step::Run(args_of(args));
        }
        match reply(replies, 0) {
            Err(e) => Step::Done(Err(e)),
            Ok(out) => Step::Done(Ok(out.clone())),
        }
    }
}

fn one_entry_paths(entry: &FileEntry) -> (r: Vec<String>)
    ensures
        texts(r@) == dedupe(touched(entry@)),
{
    let mut list: Vec<FileEntry> = Vec::new();
    list.push(entry.clone());
    proof {
        let es = entries(list@);
        assert(es =~= seq![entry@]);
        assert(es.drop_last() =~= Seq::empty());
        assert(all_touched(es) =~= touched(entry@)) by {
            assert(all_touched(es.drop_last()) =~= Seq::empty());
        }
    }
    entry_paths(&list)
}

/// The entry with an untracked file's line count.
pub open spec fn untracked_count(e: EntryView, added: Option<usize>) -> EntryView {
    if e.letter == 'U' {
        EntryView { stat: DiffStat { added, deleted: Some(0) }, ..e }
    } else {
        e
    }
}

/// Gives each untracked file its line count, as found at the same position of
/// `counts`; every other entry stays as it is.
pub fn count_untracked(list: &mut Vec<FileEntry>, counts: &Vec<Option<usize>>)
    requires
        old(list)@.len() == counts@.len(),
    ensures
        final(list)@.len() == old(list)@.len(),
        forall|i: int|
            0 <= i < final(list)@.len() ==> (#[trigger] final(list)@[i])@ == untracked_count(
                old(list)@[i]@,
                counts@[i],
            ),
{
    let ghost orig = list@;
    let mut i: usize = 0;
    while i < list.len()
        invariant
            i <= list@.len(),
            list@.len() == orig.len(),
            orig.len() == counts@.len(),
            forall|k: int| 0 <= k < i ==> (#[trigger] list@[k])@ == untracked_count(orig[k]@, counts@[k]),
            forall|k: int| i <= k < list@.len() ==> list@[k] == orig[k],
        decreases list@.len() - i,
    {
        if list[i].letter == 'U' {
            let stat = DiffStat { added: counts[i], deleted: Some(0) };
            let e = FileEntry { stat, ..list[i].clone() };
            assert(e@ == untracked_count(orig[i as int]@, counts@[i as int]));
            list.set(i, e);
        }
        i += 1;
    }
}

} // verus!
