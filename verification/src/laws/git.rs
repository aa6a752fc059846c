//! What git is asked, and what is read from its answers.

use vstd::prelude::*;

use crate::git::{
    changed_file, changed_files, columns, commit_summary, count_of, counted, current_first,
    discard_args, discover_next, failure_line, filled, filled_fields, filled_lines, fitting,
    history_entries, history_entry, line_feeds, maybe_part, message_diff_next, part, range_list,
    ref_files_next, remote_list, stage_paths_next, star_at, stash_files_next, stat_map, stat_row,
    stat_rows, status_next, sync_next, text_lines, touched, unseen, unstage_paths_next,
    untracked_count, widened, DiffStat, EntryView, Next, Outcome, RefFileView,
};
use crate::laws::status::status_read;
use crate::laws::text::lemma_trim_edges;
use crate::scan::{
    digits, is_digit, is_white, law_digits_read_back, lemma_utf8_len_push, lines, skip, trim,
    trim_start, utf8_len, words, Class,
};
use crate::text::{
    after, dedupe, has_char, has_suffix, law_dedupe, lemma_find_char_unique, split, split_from,
};

verus! {

// ---- Line counts ----

/// How many lines of a file were added and deleted, as git counts them; neither is known of
/// a binary file. A file that was moved has the path it comes from, too.
pub struct Counted {
    pub added: Option<nat>,
    pub deleted: Option<nat>,
    pub path: Seq<char>,
    pub from: Option<Seq<char>>,
}

/// What git writes of a count.
pub open spec fn count_text(n: Option<nat>) -> Seq<char> {
    match n {
        Some(n) => digits(n),
        None => seq!['-'],
    }
}

/// What git writes of a file, as the parts between its NULs.
pub open spec fn counted_parts(c: Counted) -> Seq<Seq<char>> {
    let head = count_text(c.added) + seq!['\t'] + count_text(c.deleted) + seq!['\t'];
    match c.from {
        Some(from) => seq![head, from, c.path],
        None => seq![head + c.path],
    }
}

pub open spec fn all_counted_parts(list: Seq<Counted>) -> Seq<Seq<char>>
    decreases list.len(),
{
    if list.len() == 0 {
        Seq::empty()
    } else {
        counted_parts(list[0]) + all_counted_parts(list.skip(1))
    }
}

pub open spec fn fits(c: Counted) -> bool {
    &&& c.path.len() > 0
    &&& c.added matches Some(n) ==> n <= usize::MAX
    &&& c.deleted matches Some(n) ==> n <= usize::MAX
}

pub open spec fn stat_of(c: Counted) -> DiffStat {
    DiffStat {
        added: match c.added {
            Some(n) => Some(n as usize),
            None => None,
        },
        deleted: match c.deleted {
            Some(n) => Some(n as usize),
            None => None,
        },
    }
}

proof fn lemma_count_text(n: Option<nat>)
    requires
        n matches Some(n) ==> n <= usize::MAX,
    ensures
        count_text(n).len() > 0,
        forall|i: int|
            0 <= i < count_text(n).len() ==> #[trigger] count_text(n)[i] != '\t' && count_text(n)[i]
                != '\n',
        count_of(count_text(n)) == (match n {
            Some(n) => Some(n as usize),
            None => None,
        }),
{
    match n {
        Some(n) => {
            law_digits_read_back(n);
            assert forall|i: int| 0 <= i < digits(n).len() implies #[trigger] digits(n)[i] != '\t'
                && digits(n)[i] != '\n' by {
                assert(is_digit(digits(n)[i]));
            }
            assert(is_digit(digits(n)[0]));
        },
        None => {
            assert(!is_digit(count_text(n)[0]));
        },
    }
}

proof fn lemma_columns(a: Seq<char>, b: Seq<char>, c: Seq<char>)
    requires
        a.len() > 0,
        forall|i: int| 0 <= i < a.len() ==> #[trigger] a[i] != '\t' && a[i] != '\n',
        forall|i: int| 0 <= i < b.len() ==> #[trigger] b[i] != '\t',
    ensures
        trim_start(a + seq!['\t'] + b + seq!['\t'] + c, Class::One('\n')) == a + seq!['\t'] + b + seq![
            '\t',
        ] + c,
        columns(a + seq!['\t'] + b + seq!['\t'] + c) == Some((a, b, c)),
{
    let s = a + seq!['\t'] + b + seq!['\t'] + c;
    assert(s[0] == a[0]);
    assert(skip(s, Class::One('\n'), 0) == 0);
    assert(trim_start(s, Class::One('\n')) =~= s);
    let x = a.len() as int;
    let y = x + 1 + b.len();
    assert forall|k: int| 0 <= k < x implies s[k] != '\t' by {
        assert(s[k] == a[k]);
    }
    lemma_find_char_unique(s, '\t', 0, x);
    assert forall|k: int| x + 1 <= k < y implies s[k] != '\t' by {
        assert(s[k] == b[k - x - 1]);
    }
    assert(s[y] == '\t');
    lemma_find_char_unique(s, '\t', x + 1, y);
    assert(s.subrange(0, x) =~= a);
    assert(s.subrange(x + 1, y) =~= b);
    assert(after(s, y + 1) =~= c);
}

proof fn lemma_stat_shift(p: Seq<Seq<char>>, q: Seq<Seq<char>>, k: int)
    requires
        0 <= k,
    ensures
        stat_rows(p + q, p.len() + k) == stat_rows(q, k),
    decreases q.len() + 2 - k,
{
    if k < q.len() {
        let all = p + q;
        let i = p.len() + k;
        assert(all[i] == q[k]);
        assert(part(all, i + 2) == part(q, k + 2));
        if k + 2 < q.len() {
            assert(all[i + 2] == q[k + 2]);
        }
        lemma_stat_shift(p, q, k + 1);
        lemma_stat_shift(p, q, k + 3);
        let (row, next) = stat_row(q, k);
        assert(stat_row(all, i).0 == row && stat_row(all, i).1 == p.len() + next);
    }
}

proof fn lemma_counted_rows(list: Seq<Counted>)
    requires
        forall|i: int| 0 <= i < list.len() ==> fits(#[trigger] list[i]),
    ensures
        stat_rows(all_counted_parts(list) + seq![Seq::<char>::empty()], 0) == list.map_values(
            |c: Counted| (c.path, stat_of(c)),
        ),
    decreases list.len(),
{
    let none = Seq::<char>::empty();
    let end = seq![none];
    let want = list.map_values(|c: Counted| (c.path, stat_of(c)));
    if list.len() == 0 {
        let all = all_counted_parts(list) + end;
        assert(all =~= end);
        assert(trim_start(none, Class::One('\n')) =~= none);
        assert(stat_row(all, 0) == (None::<(Seq<char>, DiffStat)>, 1int));
        assert(stat_rows(all, 1) =~= Seq::empty());
        assert(stat_rows(all, 0) =~= want);
    } else {
        let c = list[0];
        let rest = list.skip(1);
        assert forall|i: int| 0 <= i < rest.len() implies fits(#[trigger] rest[i]) by {
            assert(rest[i] == list[i + 1]);
        }
        lemma_counted_rows(rest);
        assert(fits(c));
        let p = counted_parts(c);
        let q = all_counted_parts(rest) + end;
        let all = all_counted_parts(list) + end;
        assert(all =~= p + q);
        lemma_count_text(c.added);
        lemma_count_text(c.deleted);
        let a = count_text(c.added);
        let b = count_text(c.deleted);
        match c.from {
            Some(from) => {
                lemma_columns(a, b, none);
                assert(a + seq!['\t'] + b + seq!['\t'] + none =~= p[0]);
                assert(all[0] == p[0] && all[2] == c.path);
                assert(part(all, 2) == c.path);
                lemma_stat_shift(p, q, 0);
            },
            None => {
                lemma_columns(a, b, c.path);
                assert(all[0] == p[0]);
                lemma_stat_shift(p, q, 0);
            },
        }
        assert(stat_rows(all, 0) =~= seq![(c.path, stat_of(c))] + stat_rows(q, 0));
        assert(stat_rows(all, 0) =~= want);
    }
}

/// The counts that are read are those that git wrote, by the path that each file has now,
/// and a path that git did not list has none.
pub proof fn law_counts_are_read_back(text: Seq<char>, list: Seq<Counted>, k: int)
    requires
        forall|i: int| 0 <= i < list.len() ==> fits(#[trigger] list[i]),
        forall|i: int, j: int|
            0 <= i < j < list.len() ==> (#[trigger] list[i]).path != (#[trigger] list[j]).path,
        split(text, '\0') == all_counted_parts(list) + seq![Seq::<char>::empty()],
    ensures
        ({
            let m = stat_map(stat_rows(split(text, '\0'), 0));
            &&& 0 <= k < list.len() ==> m.contains_key(list[k].path) && m[list[k].path] == stat_of(
                list[k],
            )
            &&& forall|p: Seq<char>| #[trigger]
                m.contains_key(p) ==> exists|i: int| 0 <= i < list.len() && (#[trigger] list[i]).path
                    == p
        }),
{
    lemma_counted_rows(list);
    let rows = list.map_values(|c: Counted| (c.path, stat_of(c)));
    lemma_map_of(list, rows, list.len() as int);
    assert(rows.take(list.len() as int) =~= rows);
}

proof fn lemma_map_of(list: Seq<Counted>, rows: Seq<(Seq<char>, DiffStat)>, n: int)
    requires
        0 <= n <= list.len(),
        rows == list.map_values(|c: Counted| (c.path, stat_of(c))),
        forall|i: int, j: int|
            0 <= i < j < list.len() ==> (#[trigger] list[i]).path != (#[trigger] list[j]).path,
    ensures
        forall|k: int|
            0 <= k < n ==> stat_map(rows.take(n)).contains_key((#[trigger] list[k]).path) && stat_map(
                rows.take(n),
            )[list[k].path] == stat_of(list[k]),
        forall|p: Seq<char>| #[trigger]
            stat_map(rows.take(n)).contains_key(p) ==> exists|i: int|
                0 <= i < n && (#[trigger] list[i]).path == p,
    decreases n,
{
    if n > 0 {
        lemma_map_of(list, rows, n - 1);
        assert(rows.take(n).drop_last() =~= rows.take(n - 1));
        assert(rows.take(n).last() == rows[n - 1]);
        let last = list[n - 1];
        assert(rows[n - 1] == (last.path, stat_of(last)));
    }
}

/// An entry gets the counts of its path and keeps all else.
pub proof fn law_entries_get_their_counts(
    entries: Seq<EntryView>,
    text: Seq<char>,
    list: Seq<Counted>,
    e: int,
    k: int,
)
    requires
        forall|i: int| 0 <= i < list.len() ==> fits(#[trigger] list[i]),
        forall|i: int, j: int|
            0 <= i < j < list.len() ==> (#[trigger] list[i]).path != (#[trigger] list[j]).path,
        split(text, '\0') == all_counted_parts(list) + seq![Seq::<char>::empty()],
        0 <= e < entries.len(),
        0 <= k < list.len(),
    ensures
        ({
            let next = counted(entries, Ok(text));
            &&& next.len() == entries.len()
            &&& next[e].path == entries[e].path && next[e].orig == entries[e].orig && next[e].letter
                == entries[e].letter
            &&& entries[e].path == list[k].path ==> next[e].stat == stat_of(list[k])
        }),
        counted(entries, Err(text)) == entries,
{
    law_counts_are_read_back(text, list, k);
}

/// The status is read from what git wrote of it, the unstaged entries counted by the first
/// answer on counts and the staged ones by the second, each from the command that lists
/// these; a count that fails costs only the counts.
pub proof fn law_status_asks_for_both_counts(text: Seq<char>, a: Outcome, b: Outcome, e: Seq<char>)
    ensures
        status_next(seq![Ok(text), a, b]) == Next::Give(
            crate::git::StatusView {
                unstaged: counted(status_read(text).unstaged, a),
                staged: counted(status_read(text).staged, b),
                ..status_read(text)
            },
        ),
        status_next(seq![Err(e)]) == Next::<crate::git::StatusView>::Fail(e),
        status_next(Seq::empty()) matches Next::Run(args) && args[0] == "status"@ && args.contains(
            "--porcelain"@,
        ) && args.contains("-z"@) && args.contains("--branch"@) && args.contains(
            "--untracked-files=all"@,
        ),
        status_next(seq![Ok(text)]) matches Next::Run(args) && args[0] == "diff"@ && args.contains(
            "--numstat"@,
        ) && args.contains("-z"@) && !args.contains("--cached"@),
        status_next(seq![Ok(text), a]) matches Next::Run(args) && args[0] == "diff"@ && args.contains(
            "--cached"@,
        ) && args.contains("--numstat"@) && args.contains("-z"@),
{
    reveal_strlit("--cached");
    reveal_strlit("diff");
    reveal_strlit("--numstat");
    reveal_strlit("-z");
    reveal_strlit("-M");
    reveal_strlit("--ignore-submodules=all");
    reveal_strlit("--no-ext-diff");
    let first = status_next(Seq::empty())->Run_0;
    assert(first[1] == "--porcelain"@ && first[2] == "-z"@ && first[3] == "--branch"@ && first[4]
        == "--untracked-files=all"@);
    let one = status_next(seq![Ok(text)])->Run_0;
    assert(one[1] == "--numstat"@ && one[2] == "-z"@);
    assert forall|i: int| 0 <= i < one.len() implies one[i] != "--cached"@ by {
        assert("--cached"@[2] == 'c' && "--cached"@.len() == 8);
        assert(one[0].len() == 4 && one[1][2] == 'n' && one[2].len() == 2 && one[3].len() == 2
            && one[4][2] == 'i' && one[5][2] == 'n');
    }
    let two = status_next(seq![Ok(text), a])->Run_0;
    assert(two[1] == "--cached"@ && two[2] == "--numstat"@ && two[3] == "-z"@);
}

// ---- Changed files of a revision ----

/// A file that differs between two revisions: with which letter, and where it comes from.
pub struct Differs {
    pub letter: char,
    /// What stands behind the letter, such as how alike two files are.
    pub score: Seq<char>,
    pub path: Seq<char>,
    pub from: Seq<char>,
}

pub open spec fn differs_ok(d: Differs) -> bool {
    d.letter != '\n' && d.path.len() > 0
}

/// What git writes of such a file, as the parts between its NULs.
pub open spec fn differs_parts(d: Differs) -> Seq<Seq<char>> {
    let status = seq![d.letter] + d.score;
    if d.letter == 'R' || d.letter == 'C' {
        seq![status, d.from, d.path]
    } else {
        seq![status, d.path]
    }
}

pub open spec fn all_differs_parts(list: Seq<Differs>) -> Seq<Seq<char>>
    decreases list.len(),
{
    if list.len() == 0 {
        Seq::empty()
    } else {
        differs_parts(list[0]) + all_differs_parts(list.skip(1))
    }
}

pub open spec fn differs_entry(d: Differs) -> EntryView {
    EntryView {
        path: d.path,
        orig: if d.letter == 'R' || d.letter == 'C' {
            Some(d.from)
        } else {
            None
        },
        letter: if d.letter == 'T' {
            'M'
        } else {
            d.letter
        },
        stat: DiffStat { added: None, deleted: None },
    }
}

proof fn lemma_files_shift(p: Seq<Seq<char>>, q: Seq<Seq<char>>, k: int)
    requires
        0 <= k,
    ensures
        changed_files(p + q, p.len() + k) == changed_files(q, k),
    decreases q.len() + 2 - k,
{
    if k < q.len() {
        let all = p + q;
        let i = p.len() + k;
        assert(all[i] == q[k]);
        assert(maybe_part(all, i + 1) == maybe_part(q, k + 1));
        assert(maybe_part(all, i + 2) == maybe_part(q, k + 2));
        lemma_files_shift(p, q, k + 1);
        lemma_files_shift(p, q, k + 2);
        lemma_files_shift(p, q, k + 3);
        let status = trim_start(q[k], Class::One('\n'));
        if status.len() > 0 {
            let (file, next) = changed_file(q, k, status);
            assert(changed_file(all, i, status).0 == file && changed_file(all, i, status).1 == p.len()
                + next);
        }
    }
}

/// The files that are read are those that git wrote, in order: each with its letter and its
/// path, and with the path it comes from where it was moved or copied.
pub proof fn law_changed_files_are_read_back(list: Seq<Differs>)
    requires
        forall|i: int| 0 <= i < list.len() ==> differs_ok(#[trigger] list[i]),
    ensures
        changed_files(all_differs_parts(list) + seq![Seq::<char>::empty()], 0) == list.map_values(
            |d: Differs| differs_entry(d),
        ),
    decreases list.len(),
{
    let none = Seq::<char>::empty();
    let end = seq![none];
    let want = list.map_values(|d: Differs| differs_entry(d));
    if list.len() == 0 {
        let all = all_differs_parts(list) + end;
        assert(all =~= end);
        assert(trim_start(none, Class::One('\n')) =~= none);
        assert(changed_files(all, 1) =~= Seq::empty());
        assert(changed_files(all, 0) =~= want);
    } else {
        let d = list[0];
        let rest = list.skip(1);
        assert forall|i: int| 0 <= i < rest.len() implies differs_ok(#[trigger] rest[i]) by {
            assert(rest[i] == list[i + 1]);
        }
        law_changed_files_are_read_back(rest);
        assert(differs_ok(d));
        let p = differs_parts(d);
        let q = all_differs_parts(rest) + end;
        let all = all_differs_parts(list) + end;
        assert(all =~= p + q);
        let status = seq![d.letter] + d.score;
        assert(status[0] == d.letter);
        assert(skip(status, Class::One('\n'), 0) == 0);
        assert(trim_start(status, Class::One('\n')) =~= status);
        assert(all[0] == status);
        assert(all[1] == p[1]);
        if d.letter == 'R' || d.letter == 'C' {
            assert(all[2] == p[2]);
        }
        assert(changed_file(all, 0, status).0 matches Some(e) && e =~= differs_entry(d));
        assert(changed_file(all, 0, status).1 == p.len());
        lemma_files_shift(p, q, 0);
        assert(changed_files(all, 0) =~= seq![differs_entry(d)] + changed_files(q, 0));
        assert(changed_files(all, 0) =~= want);
    }
}

/// A file of a revision is compared between the two revisions that were asked for.
pub proof fn law_revision_files_name_both_revisions(
    names: Seq<char>,
    stats: Outcome,
    old: Seq<char>,
    new: Seq<char>,
    list: Seq<Differs>,
    k: int,
)
    requires
        forall|i: int| 0 <= i < list.len() ==> differs_ok(#[trigger] list[i]),
        split(names, '\0') == all_differs_parts(list) + seq![Seq::<char>::empty()],
        0 <= k < list.len(),
    ensures
        ({
            let files = range_list(names, stats, old, new);
            &&& files.len() == list.len()
            &&& files[k].entry.path == list[k].path
            &&& files[k].entry.letter == differs_entry(list[k]).letter
            &&& files[k].entry.orig == differs_entry(list[k]).orig
            &&& files[k].old_spec == old
            &&& files[k].new_spec == new
        }),
{
    law_changed_files_are_read_back(list);
}

/// A commit is compared with its first parent, or with the empty tree where it has none.
pub proof fn law_commits_are_compared_with_their_parent(
    spec: Seq<char>,
    commit: Seq<char>,
    parents: Seq<char>,
    names: Seq<char>,
    stats: Outcome,
)
    requires
        commit.len() > 0,
        !is_white(commit[0]),
        !is_white(commit.last()),
    ensures
        ref_files_next(spec, Seq::empty()) matches Next::Run(args) && args.last() == spec
            + "^{commit}"@,
        ref_files_next(spec, seq![Ok(commit)]) matches Next::Run(args) && args.last() == commit,
        ref_files_next(spec, seq![Ok(commit), Ok(parents), Ok(names), stats]) == Next::Give(
            range_list(
                names,
                stats,
                if words(parents).len() > 1 {
                    words(parents)[1]
                } else {
                    "4b825dc642cb6eb9a060e54bf8d69288fbee4904"@
                },
                commit,
            ),
        ),
{
    lemma_trim_edges(commit);
}

/// The files of a stash are those of its snapshot and, behind them, the untracked ones whose
/// path the snapshot does not have.
pub proof fn law_stashed_files_are_listed_once(files: Seq<RefFileView>, more: Seq<RefFileView>)
    ensures
        forall|f: RefFileView| #[trigger]
            unseen(files, more).contains(f) <==> more.contains(f) && !(exists|i: int|
                0 <= i < files.len() && (#[trigger] files[i]).entry.path == f.entry.path),
    decreases more.len(),
{
    let all = unseen(files, more);
    if more.len() > 0 {
        let before = more.drop_last();
        law_stashed_files_are_listed_once(files, before);
        let less = unseen(files, before);
        let last = more.last();
        assert forall|f: RefFileView| #[trigger] all.contains(f) <==> more.contains(f) && !(exists|
            i: int,
        | 0 <= i < files.len() && (#[trigger] files[i]).entry.path == f.entry.path) by {
            if all.contains(f) {
                let k = choose|k: int| 0 <= k < all.len() && all[k] == f;
                if k < less.len() {
                    assert(less[k] == f);
                    assert(less.contains(f));
                    let j = choose|j: int| 0 <= j < before.len() && before[j] == f;
                    assert(more[j] == f);
                } else {
                    assert(more[more.len() - 1] == f);
                }
            }
            if more.contains(f) && !(exists|i: int|
                0 <= i < files.len() && (#[trigger] files[i]).entry.path == f.entry.path) {
                let j = choose|j: int| 0 <= j < more.len() && more[j] == f;
                if j < before.len() {
                    assert(before[j] == f);
                    assert(less.contains(f));
                    let k = choose|k: int| 0 <= k < less.len() && less[k] == f;
                    assert(all[k] == f);
                } else {
                    assert(all[all.len() - 1] == f);
                }
            }
        }
    }
}

// ---- Lines of a new file ----

proof fn lemma_feeds_add(a: Seq<u8>, b: Seq<u8>)
    ensures
        line_feeds(a + b) == line_feeds(a) + line_feeds(b),
    decreases b.len(),
{
    if b.len() == 0 {
        assert(a + b =~= a);
    } else {
        lemma_feeds_add(a, b.drop_last());
        assert((a + b).drop_last() =~= a + b.drop_last());
        assert((a + b).last() == b.last());
    }
}

proof fn lemma_no_feeds(a: Seq<u8>)
    requires
        !a.contains(10u8),
    ensures
        line_feeds(a) == 0,
    decreases a.len(),
{
    if a.len() > 0 {
        let t = a.drop_last();
        assert(a.contains(a[a.len() - 1]));
        if t.contains(10u8) {
            let i = choose|i: int| 0 <= i < t.len() && t[i] == 10u8;
            assert(a[i] == 10u8);
        }
        lemma_no_feeds(t);
    }
}

/// A new file has one line more with each line in front of it; a last line counts with or
/// without a line feed, an empty file has none, and the lines of a binary file are not counted.
pub proof fn law_lines_of_a_file_add_up(line: Seq<u8>, rest: Seq<u8>)
    requires
        !line.contains(10u8),
        !line.contains(0u8),
    ensures
        text_lines(Seq::empty()) == Some(0nat),
        line.len() > 0 ==> text_lines(line) == Some(1nat),
        !rest.contains(0u8) ==> text_lines(line + seq![10u8] + rest) == Some(
            (text_lines(rest)->0 + 1) as nat,
        ),
        rest.contains(0u8) ==> text_lines(line + seq![10u8] + rest) is None,
{
    let s = line + seq![10u8] + rest;
    lemma_no_feeds(line);
    lemma_feeds_add(line + seq![10u8], rest);
    lemma_feeds_add(line, seq![10u8]);
    assert(seq![10u8].drop_last() =~= Seq::empty());
    assert(line_feeds(seq![10u8]) == 1);
    if line.len() > 0 {
        assert(line.contains(line[line.len() - 1]));
    }
    assert(s.contains(0u8) == rest.contains(0u8)) by {
        if s.contains(0u8) {
            let i = choose|i: int| 0 <= i < s.len() && s[i] == 0u8;
            if i < line.len() {
                assert(line[i] == 0u8);
            } else {
                assert(rest[i - line.len() - 1] == 0u8);
            }
        }
        if rest.contains(0u8) {
            let i = choose|i: int| 0 <= i < rest.len() && rest[i] == 0u8;
            assert(s[line.len() + 1 + i] == 0u8);
        }
    }
    if rest.len() > 0 {
        assert(s.last() == rest.last());
    } else {
        assert(s.last() == 10u8);
    }
}

/// The lines of an untracked file count as added, and other entries keep their counts.
pub proof fn law_untracked_lines_are_added(e: EntryView, n: usize)
    ensures
        e.letter == 'U' ==> untracked_count(e, Some(n)).stat == (DiffStat {
            added: Some(n),
            deleted: Some(0),
        }),
        e.letter != 'U' ==> untracked_count(e, Some(n)) == e,
        untracked_count(e, Some(n)).path == e.path && untracked_count(e, Some(n)).letter == e.letter,
{
}

// ---- Commands ----

/// Staging and unstaging name exactly the paths that they are for, behind the word that ends
/// the options; without paths nothing is run.
pub proof fn law_commands_name_their_paths(paths: Seq<Seq<char>>)
    requires
        paths.len() > 0,
    ensures
        stage_paths_next(paths, Seq::empty()) matches Next::Run(args) && args[0] == "add"@ && args.len()
            == paths.len() + 3 && args[2] == "--"@ && args.skip(3) == paths,
        unstage_paths_next(paths, Seq::empty()) matches Next::Run(args) && args[0] == "reset"@
            && args.len() == paths.len() + 3 && args[2] == "--"@ && args.skip(3) == paths,
        stage_paths_next(Seq::empty(), Seq::empty()) == Next::Give(()),
        unstage_paths_next(Seq::empty(), Seq::empty()) == Next::Give(()),
{
    assert((seq!["add"@, "-A"@, "--"@] + paths).skip(3) =~= paths);
    assert((seq!["reset"@, "-q"@, "--"@] + paths).skip(3) =~= paths);
}

/// An entry is staged and unstaged with its path and, where it was moved, with the path it
/// comes from, each once.
pub proof fn law_entries_are_staged_with_their_source(e: EntryView)
    ensures
        forall|p: Seq<char>| #[trigger]
            dedupe(touched(e)).contains(p) <==> p == e.path || e.orig == Some(p),
        dedupe(touched(e)).no_duplicates(),
{
    law_dedupe(touched(e));
    assert forall|p: Seq<char>| #[trigger] dedupe(touched(e)).contains(p) <==> p == e.path || e.orig
        == Some(p) by {
        assert(dedupe(touched(e)).contains(p) <==> touched(e).contains(p));
        assert(touched(e)[0] == e.path);
        if e.orig is Some {
            assert(touched(e)[1] == e.orig->0);
        }
    }
}

/// A change is thrown away for its own path alone: an untracked file is removed, and any other
/// is restored from the last commit.
pub proof fn law_discarding_touches_one_path(e: EntryView)
    ensures
        e.letter == 'U' ==> discard_args(e) == seq!["clean"@, "-fd"@, "--"@, e.path],
        e.letter != 'U' ==> discard_args(e) == seq!["checkout"@, "HEAD"@, "--"@, e.path],
{
}

/// A synchronisation pulls before it pushes, and pushes only where the pull succeeded.
pub proof fn law_pull_comes_before_push(a: Outcome, e: Seq<char>)
    ensures
        sync_next(Seq::empty()) matches Next::Run(args) && args[0] == "pull"@,
        sync_next(seq![Err(e)]) == Next::<Seq<char>>::Fail(e),
        a is Ok ==> sync_next(seq![a]) == Next::<Seq<char>>::Run(seq!["push"@]),
        a is Ok ==> sync_next(seq![a, Err(e)]) == Next::<Seq<char>>::Fail(e),
        a is Ok ==> sync_next(seq![a, a]) is Give,
{
}

/// What a message is suggested from: what is staged where anything is, else what changed in
/// the working tree; with the names of the files that changed and of those that are new.
pub proof fn law_suggestions_prefer_what_is_staged(
    staged: Seq<char>,
    working: Seq<char>,
    names: Seq<char>,
    new: Seq<char>,
)
    requires
        trim(staged, Class::White).len() > 0,
        trim(working, Class::White).len() == 0,
    ensures
        message_diff_next(seq![Ok(staged), Ok(names), Ok(new)]) == Next::Give(
            (staged, filled_lines(names) + filled_lines(new)),
        ),
        message_diff_next(seq![Ok(working), Ok(staged), Ok(names), Ok(new)]) == Next::Give(
            (staged, filled_lines(names) + filled_lines(new)),
        ),
        message_diff_next(Seq::empty()) matches Next::Run(args) && args[1] == "--cached"@,
        message_diff_next(seq![Ok(staged)]) == Next::<(Seq<char>, Seq<Seq<char>>)>::Run(
            seq!["diff"@, "--cached"@, "--name-only"@],
        ),
        message_diff_next(seq![Ok(working)]) == Next::<(Seq<char>, Seq<Seq<char>>)>::Run(
            seq!["diff"@, "--stat"@, "--patch"@],
        ),
        message_diff_next(seq![Ok(staged), Ok(names)]) == Next::<(Seq<char>, Seq<Seq<char>>)>::Run(
            seq!["ls-files"@, "--others"@, "--exclude-standard"@],
        ),
{
}

/// The lines of an answer are its lines in order, without empty ones.
pub proof fn law_filled_lines_keep_the_order(parts: Seq<Seq<char>>, line: Seq<char>)
    ensures
        filled(parts.push(line)) == (if line.len() > 0 {
            filled(parts).push(line)
        } else {
            filled(parts)
        }),
        filled(Seq::empty()) == Seq::<Seq<char>>::empty(),
{
    assert(parts.push(line).drop_last() =~= parts);
}

/// The branch that is checked out, which git marks with a star, comes first, and the others
/// keep their order.
pub proof fn law_current_branch_comes_first(
    before: Seq<Seq<char>>,
    current: Seq<char>,
    behind: Seq<Seq<char>>,
)
    requires
        forall|i: int|
            0 <= i < before.len() ==> (#[trigger] before[i]).len() == 0 || before[i][0] != '*',
        current.len() > 0,
        current[0] == '*',
    ensures
        current_first(before + seq![current] + behind) == seq![current] + before + behind,
        current_first(before) == before,
{
    let v = before + seq![current] + behind;
    let n = before.len() as int;
    lemma_star(v, 0, n);
    assert(v[n] == current);
    assert(seq![v[n]] + v.remove(n) =~= seq![current] + before + behind);
    lemma_star(before, 0, n);
}

proof fn lemma_star(v: Seq<Seq<char>>, i: int, n: int)
    requires
        0 <= i <= n <= v.len(),
        forall|k: int| i <= k < n ==> (#[trigger] v[k]).len() == 0 || v[k][0] != '*',
        n < v.len() ==> v[n].len() > 0 && v[n][0] == '*',
    ensures
        star_at(v, i) == n,
    decreases n - i,
{
    if i < n {
        assert(v[i].len() == 0 || v[i][0] != '*');
        lemma_star(v, i + 1, n);
    }
}

/// A failure is told by the first line of the error output that is not blank.
pub proof fn law_failures_tell_their_first_line(blank: Seq<Seq<char>>, line: Seq<char>, more: Seq<Seq<char>>)
    requires
        forall|i: int| 0 <= i < blank.len() ==> trim(#[trigger] blank[i], Class::White).len() == 0,
        line.len() > 0,
        !is_white(line[0]),
        !is_white(line.last()),
    ensures
        failure_line(blank + seq![line] + more) == line,
    decreases blank.len(),
{
    let all = blank + seq![line] + more;
    lemma_trim_edges(line);
    if blank.len() == 0 {
        assert(all[0] == line);
    } else {
        let rest = blank.skip(1);
        assert forall|i: int| 0 <= i < rest.len() implies trim(#[trigger] rest[i], Class::White).len()
            == 0 by {
            assert(rest[i] == blank[i + 1]);
        }
        law_failures_tell_their_first_line(rest, line, more);
        assert(all[0] == blank[0]);
        assert(all.subrange(1, all.len() as int) =~= rest + seq![line] + more);
    }
}

/// A repository is found by the directory that git names, without the blanks round it.
pub proof fn law_repositories_are_where_git_says(root: Seq<char>, e: Seq<char>)
    requires
        root.len() > 0,
        !is_white(root[0]),
        !is_white(root.last()),
    ensures
        discover_next(seq![Ok(root)]) == Next::Give(root),
        discover_next(seq![Err(e)]) == Next::<Seq<char>>::Fail(e),
        discover_next(Seq::empty()) == Next::<Seq<char>>::Run(seq!["rev-parse"@, "--show-toplevel"@]),
{
    lemma_trim_edges(root);
}

// ---- Histories and remotes ----

proof fn lemma_ascii(s: Seq<char>)
    requires
        forall|i: int| 0 <= i < s.len() ==> (#[trigger] s[i] as u32) < 128,
    ensures
        utf8_len(s) == s.len(),
    decreases s.len(),
{
    if s.len() > 0 {
        let t = s.drop_last();
        assert forall|i: int| 0 <= i < t.len() implies (#[trigger] t[i] as u32) < 128 by {
            assert(t[i] == s[i]);
        }
        lemma_ascii(t);
        assert((s[s.len() - 1] as u32) < 128);
        lemma_utf8_len_push(t, s.last());
        assert(t.push(s.last()) =~= s);
    }
}

proof fn lemma_short(hash: Seq<char>, n: nat)
    requires
        forall|i: int| 0 <= i < hash.len() ==> (#[trigger] hash[i] as u32) < 128,
        n <= hash.len(),
    ensures
        fitting(hash, n) == n,
    decreases hash.len(),
{
    lemma_ascii(hash);
    if hash.len() > n {
        let t = hash.drop_last();
        assert forall|i: int| 0 <= i < t.len() implies (#[trigger] t[i] as u32) < 128 by {
            assert(t[i] == hash[i]);
        }
        lemma_short(t, n);
    }
}

/// A line of a file's history shows the first seven letters of the commit and its subject,
/// and compares the file as it was in the commit with its first parent, or with the empty
/// tree where there is none.
pub proof fn law_history_shows_commits(
    record: Seq<char>,
    hash: Seq<char>,
    parents: Seq<char>,
    subject: Seq<char>,
    d: Differs,
)
    requires
        hash.len() >= 7,
        forall|i: int| 0 <= i < hash.len() ==> (#[trigger] hash[i] as u32) < 128,
        differs_ok(d),
        d.path[0] != '\n',
        d.from.len() > 0,
        d.from[0] != '\n',
        split(record, '\0') == seq![hash, parents, subject] + differs_parts(
            d,
        ) + seq![Seq::<char>::empty()],
    ensures
        history_entry(record) matches Some(h) && h.line == hash.take(7) + seq![' '] + subject
            && h.file.new_spec == hash && h.file.old_spec == (if words(parents).len() > 0 {
            words(parents)[0]
        } else {
            "4b825dc642cb6eb9a060e54bf8d69288fbee4904"@
        }) && h.file.entry == differs_entry(d),
{
    let fields = split(record, '\0');
    let p = differs_parts(d);
    let none = Seq::<char>::empty();
    lemma_short(hash, 7);
    assert(fields[0] == hash && fields[1] == parents && fields[2] == subject);
    let status = seq![d.letter] + d.score;
    assert(status[0] == d.letter);
    assert(p[0] == status);
    assert forall|k: int| 0 <= k < p.len() implies trim_start(#[trigger] p[k], Class::One('\n'))
        == p[k] && p[k].len() > 0 by {
        assert(p[k][0] != '\n');
        assert(skip(p[k], Class::One('\n'), 0) == 0);
        assert(trim_start(p[k], Class::One('\n')) =~= p[k]);
    }
    assert(trim_start(none, Class::One('\n')) =~= none);
    let n = fields.len() as int;
    assert(n == 4 + p.len());
    assert(fields[n - 1] == none);
    assert(filled_fields(fields, n) =~= Seq::empty());
    assert(filled_fields(fields, n - 1) =~= Seq::empty());
    assert forall|k: int| 0 <= k < p.len() implies fields[3 + k] == #[trigger] p[k] by {}
    lemma_fields(fields, p, 0);
    let tail = filled_fields(fields, 3);
    assert(p.skip(0) =~= p);
    assert(tail == p);
    assert(changed_file(tail, 0, tail[0]).0 matches Some(e) && e =~= differs_entry(d));
}

proof fn lemma_fields(fields: Seq<Seq<char>>, p: Seq<Seq<char>>, k: int)
    requires
        0 <= k <= p.len(),
        fields.len() == 4 + p.len(),
        forall|k: int| 0 <= k < p.len() ==> fields[3 + k] == #[trigger] p[k],
        forall|k: int|
            0 <= k < p.len() ==> trim_start(#[trigger] p[k], Class::One('\n')) == p[k] && p[k].len()
                > 0,
        filled_fields(fields, fields.len() - 1) == Seq::<Seq<char>>::empty(),
    ensures
        filled_fields(fields, 3 + k) == p.skip(k),
    decreases p.len() - k,
{
    if k < p.len() {
        lemma_fields(fields, p, k + 1);
        assert(fields[3 + k] == p[k]);
        assert(seq![p[k]] + p.skip(k + 1) =~= p.skip(k));
    } else {
        assert(p.skip(k) =~= Seq::empty());
    }
}

proof fn lemma_widened_add(a: Seq<char>, b: Seq<char>)
    ensures
        widened(a + b) == widened(a) + widened(b),
    decreases b.len(),
{
    if b.len() == 0 {
        assert(a + b =~= a);
        assert(widened(a) + widened(b) =~= widened(a));
    } else {
        lemma_widened_add(a, b.drop_last());
        assert((a + b).drop_last() =~= a + b.drop_last());
        assert((a + b).last() == b.last());
        assert(widened(a + b) =~= widened(a) + widened(b));
    }
}

proof fn lemma_not_widened(a: Seq<char>)
    requires
        !has_char(a, '\t'),
    ensures
        widened(a) == a,
    decreases a.len(),
{
    if a.len() > 0 {
        let t = a.drop_last();
        assert(a[a.len() - 1] != '\t');
        if has_char(t, '\t') {
            let i = choose|i: int| 0 <= i < t.len() && t[i] == '\t';
            assert(a[i] == '\t');
        }
        lemma_not_widened(t);
    }
    assert(widened(a) =~= a);
}

/// A remote is listed once, by the line for fetching: its name, two blanks and its address.
pub proof fn law_remotes_are_listed_once(parts: Seq<Seq<char>>, name: Seq<char>, url: Seq<char>)
    requires
        !has_char(name, '\t'),
        !has_char(url, '\t'),
    ensures
        remote_list(parts.push(name + seq!['\t'] + url + " (fetch)"@)) == remote_list(parts).push(
            name + seq![' ', ' '] + url,
        ),
        remote_list(parts.push(name + seq!['\t'] + url + " (push)"@)) == remote_list(parts),
{
    reveal_strlit(" (fetch)");
    reveal_strlit(" (push)");
    reveal_strlit("  ");
    let own = name + seq!['\t'] + url;
    let a = own + " (fetch)"@;
    let b = own + " (push)"@;
    assert(parts.push(a).drop_last() =~= parts);
    assert(parts.push(b).drop_last() =~= parts);
    assert(a.subrange(a.len() - 8, a.len() as int) =~= " (fetch)"@);
    assert(a.take(a.len() - 8) =~= own);
    if has_suffix(b, " (fetch)"@) {
        assert(b.subrange(b.len() - 8, b.len() as int)[6] == " (fetch)"@[6]);
        assert(b[b.len() - 2] == 'h');
        assert(" (push)"@[5] == 'h');
        assert(b.subrange(b.len() - 8, b.len() as int)[5] == " (fetch)"@[5]);
        assert(b[b.len() - 3] == " (push)"@[4]);
    }
    lemma_widened_add(name + seq!['\t'], url);
    lemma_widened_add(name, seq!['\t']);
    lemma_not_widened(name);
    lemma_not_widened(url);
    assert(seq!['\t'].drop_last() =~= Seq::empty());
    let tab = seq!['\t'];
    assert(tab.last() == '\t');
    assert(widened(tab.drop_last()) =~= Seq::empty());
    assert(widened(tab) =~= seq![' ', ' ']);
    assert(widened(own) =~= name + seq![' ', ' '] + url);
}

// ---- Commits ----

/// A commit is told by the first line that git wrote of it.
pub proof fn law_commits_tell_their_first_line(line: Seq<char>, rest: Seq<char>)
    requires
        !has_char(line, '\n'),
        line.len() > 0,
        line.last() != '\r',
    ensures
        commit_summary(line + seq!['\n'] + rest) == line,
{
    let out = line + seq!['\n'] + rest;
    let n = line.len() as int;
    lemma_find_char_unique(out, '\n', 0, n);
    assert(out[n] == '\n');
    assert(out.subrange(0, n) =~= line);
    let parts = split(out, '\n');
    assert(parts[0] == line);
    assert(split_from(out, '\n', n + 1).len() > 0);
    assert(parts.drop_last()[0] == line);
}

/// Every record of a file's history that can be read is listed, in order, and no other.
pub proof fn law_every_commit_is_listed(records: Seq<Seq<char>>, record: Seq<char>)
    ensures
        history_entries(Seq::empty()).len() == 0,
        history_entry(record) is None ==> history_entries(records.push(record)) == history_entries(
            records,
        ),
        history_entry(record) matches Some(e) ==> history_entries(records.push(record))
            == history_entries(records).push(e),
{
    assert(records.push(record).drop_last() =~= records);
}

/// A stash is looked up by its name first; its files come from what it changed, and where it
/// saved files that git does not know, from those as well. That there are none is no failure.
pub proof fn law_stashes_have_their_unknown_files(
    spec: Seq<char>,
    commit: Seq<char>,
    list: Seq<char>,
    counts: Outcome,
    parents: Seq<char>,
    e: Seq<char>,
)
    requires
        commit.len() > 0,
        !is_white(commit[0]),
        !is_white(commit.last()),
    ensures
        stash_files_next(spec, Seq::empty()) matches Next::Run(args) && args.last() == spec,
        stash_files_next(spec, seq![Err(e)]) == Next::<Seq<RefFileView>>::Fail(e),
        stash_files_next(spec, seq![Ok(commit), Ok(parents), Ok(list), counts]) matches Next::Run(args)
            && args.last() == commit + seq!['^', '3'],
        stash_files_next(spec, seq![Ok(commit), Ok(parents), Ok(list), counts, Err(e)]) is Give,
{
    lemma_trim_edges(commit);
    reveal_strlit("^3");
    assert("^3"@ =~= seq!['^', '3']);
}

} // verus!
