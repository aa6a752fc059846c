//! Editor-style diffs: parsing of plain unified diffs, folding of unchanged
//! runs, word-level change ranges, and rows with a line-number gutter.

use vstd::prelude::*;

use crate::scan::{digits, digits_of, lines, lines_of, number, parse_number, words, words_of};
use crate::style::{
    bg_style, fg_style, no_style, push_span, push_spans, lines_view, rows_of_spans, spans_text,
    spans_view, styled, Color, Line, LineView, Span, SpanView, Style,
};
use crate::syntax::{
    expand_tabs, grammar_for, highlight_side, highlighted_rows, push_spaces, spaces, tabs_expanded,
    Grammars,
};
use crate::text::{
    after, chars_of, find, find_char, has_prefix, pieces, push_all, push_text, slice_of,
    starts_with_str, text_of, texts,
};

verus! {

/// One parsed diff line.
pub enum Ev {
    /// Unchanged lines omitted before the next hunk.
    Omitted(usize),
    /// Unchanged: old line number, new line number, text.
    Ctx(usize, usize, String),
    Del(usize, String),
    Add(usize, String),
    /// Anything else worth keeping.
    Plain(String),
}

#[verifier::ext_equal]
pub enum EvView {
    Omitted(usize),
    Ctx(usize, usize, Seq<char>),
    Del(usize, Seq<char>),
    Add(usize, Seq<char>),
    Plain(Seq<char>),
}

impl View for Ev {
    type V = EvView;

    open spec fn view(&self) -> EvView {
        match self {
            Ev::Omitted(n) => EvView::Omitted(*n),
            Ev::Ctx(o, n, t) => EvView::Ctx(*o, *n, t@),
            Ev::Del(o, t) => EvView::Del(*o, t@),
            Ev::Add(n, t) => EvView::Add(*n, t@),
            Ev::Plain(t) => EvView::Plain(t@),
        }
    }
}

pub open spec fn evs_view(v: Seq<Ev>) -> Seq<EvView> {
    v.map_values(|e: Ev| e@)
}

// ---- Parsing ----

/// Where a diff stands: the next line numbers, whether a hunk of the current
/// file has begun, and whether header lines may still come.
#[derive(Clone, Copy)]
pub struct Place {
    pub old_no: usize,
    pub new_no: usize,
    pub seen_hunk: bool,
    pub in_hunk: bool,
}

/// The line number after `n`, in the arithmetic of the machine.
pub open spec fn succ(n: usize) -> usize {
    if n == usize::MAX {
        0
    } else {
        (n + 1) as usize
    }
}

fn next_no(n: usize) -> (r: usize)
    ensures
        r == succ(n),
{
    if n == usize::MAX {
        0
    } else {
        n + 1
    }
}

/// Whether a line is a header that shows nothing. Inside a hunk, lines that
/// look like file names are changes.
pub open spec fn is_header(line: Seq<char>, in_hunk: bool) -> bool {
    ||| !in_hunk && (has_prefix(line, "--- "@) || has_prefix(line, "+++ "@))
    ||| has_prefix(line, "diff --git"@)
    ||| has_prefix(line, "index "@)
    ||| has_prefix(line, "old mode"@)
    ||| has_prefix(line, "new mode"@)
    ||| has_prefix(line, "similarity"@)
    ||| has_prefix(line, "rename "@)
    ||| has_prefix(line, "copy "@)
    ||| has_prefix(line, "new file mode"@)
    ||| has_prefix(line, "deleted file mode"@)
    ||| (line.len() > 0 && line[0] == '\\')
}

fn header_line(line: &Vec<char>, in_hunk: bool) -> (r: bool)
    ensures
        r == is_header(line@, in_hunk),
{
    (!in_hunk && (starts_with_str(line, "--- ") || starts_with_str(line, "+++ ")))
        || starts_with_str(line, "diff --git") || starts_with_str(line, "index ")
        || starts_with_str(line, "old mode") || starts_with_str(line, "new mode")
        || starts_with_str(line, "similarity") || starts_with_str(line, "rename ")
        || starts_with_str(line, "copy ") || starts_with_str(line, "new file mode")
        || starts_with_str(line, "deleted file mode") || (line.len() > 0 && line[0] == '\\')
}

/// The line number that a word such as `-12,3` gives after its sign.
pub open spec fn signed_start(word: Seq<char>, sign: char) -> Option<usize> {
    if word.len() > 0 && word[0] == sign {
        let rest = after(word, 1);
        number(rest.take(find_char(rest, ',', 0)))
    } else {
        None
    }
}

fn read_signed(word: &Vec<char>, sign: char) -> (r: Option<usize>)
    ensures
        r == signed_start(word@, sign),
{
    if word.len() > 0 && word[0] == sign {
        let rest = slice_of(word, 1, word.len());
        let end = find(&rest, ',', 0);
        let start = slice_of(&rest, 0, end);
        assert(start@ =~= rest@.take(end as int));
        parse_number(&start)
    } else {
        None
    }
}

/// The number that the last of the words with this sign gives.
pub open spec fn last_start(list: Seq<Seq<char>>, sign: char) -> Option<usize>
    decreases list.len(),
{
    if list.len() == 0 {
        None
    } else if signed_start(list.last(), sign) is Some {
        signed_start(list.last(), sign)
    } else {
        last_start(list.drop_last(), sign)
    }
}

fn read_last_start(list: &Vec<Vec<char>>, sign: char) -> (r: Option<usize>)
    ensures
        r == last_start(pieces(list@), sign),
{
    let ghost all = pieces(list@);
    let mut i: usize = list.len();
    assert(all.take(i as int) =~= all);
    while i > 0
        invariant
            i <= list@.len(),
            all == pieces(list@),
            last_start(all, sign) == last_start(all.take(i as int), sign),
        decreases i,
    {
        proof {
            assert(all.take(i as int).drop_last() =~= all.take(i - 1));
            assert(all.take(i as int).last() == list@[i - 1]@);
        }
        let found = read_signed(&list[i - 1], sign);
        if found.is_some() {
            return found;
        }
        i -= 1;
    }
    None
}

pub open spec fn floor_sub(a: usize, b: usize) -> usize {
    if a >= b {
        (a - b) as usize
    } else {
        0
    }
}

/// How many unchanged lines lie before a hunk that starts at the given lines.
pub open spec fn hidden_before(at: Place, next_old: usize, next_new: usize) -> usize {
    let o = floor_sub(next_old, if at.seen_hunk {
        at.old_no
    } else {
        1
    });
    let n = floor_sub(next_new, if at.seen_hunk {
        at.new_no
    } else {
        1
    });
    if o <= n {
        o
    } else {
        n
    }
}

/// What one line of a diff does: where the diff stands after it, and the event
/// that it gives.
pub open spec fn line_step(at: Place, line: Seq<char>) -> (Place, Option<EvView>) {
    let at = if has_prefix(line, "diff --git"@) {
        Place { in_hunk: false, seen_hunk: false, ..at }
    } else {
        at
    };
    if is_header(line, at.in_hunk) {
        (at, None)
    } else if has_prefix(line, "@@"@) {
        let at = Place { in_hunk: true, ..at };
        match (last_start(words(line), '-'), last_start(words(line), '+')) {
            (Some(o), Some(n)) => {
                let hidden = hidden_before(at, o, n);
                (
                    Place { old_no: o, new_no: n, seen_hunk: true, ..at },
                    if hidden > 0 {
                        Some(EvView::Omitted(hidden))
                    } else {
                        None
                    },
                )
            },
            _ => (at, None),
        }
    } else if line.len() == 0 {
        (
            Place { old_no: succ(at.old_no), new_no: succ(at.new_no), ..at },
            Some(EvView::Ctx(at.old_no, at.new_no, Seq::empty())),
        )
    } else if line[0] == '-' {
        (Place { old_no: succ(at.old_no), ..at }, Some(EvView::Del(at.old_no, after(line, 1))))
    } else if line[0] == '+' {
        (Place { new_no: succ(at.new_no), ..at }, Some(EvView::Add(at.new_no, after(line, 1))))
    } else if line[0] == ' ' {
        (
            Place { old_no: succ(at.old_no), new_no: succ(at.new_no), ..at },
            Some(EvView::Ctx(at.old_no, at.new_no, after(line, 1))),
        )
    } else {
        (at, Some(EvView::Plain(line)))
    }
}

/// The start of a diff.
pub open spec fn start_place() -> Place {
    Place { old_no: 0, new_no: 0, seen_hunk: false, in_hunk: false }
}

/// Where a diff stands after its lines, and the events that they gave.
pub open spec fn diff_run(parts: Seq<Seq<char>>) -> (Place, Seq<EvView>)
    decreases parts.len(),
{
    if parts.len() == 0 {
        (start_place(), Seq::empty())
    } else {
        let (at, evs) = diff_run(parts.drop_last());
        let (next, ev) = line_step(at, parts.last());
        match ev {
            Some(e) => (next, evs.push(e)),
            None => (next, evs),
        }
    }
}

/// The events of a diff.
pub open spec fn diff_events(diff: Seq<char>) -> Seq<EvView> {
    diff_run(lines(diff)).1
}

fn read_hunk(at: Place, line: &Vec<char>) -> (r: (Place, Option<Ev>))
    requires
        has_prefix(line@, "@@"@),
        !is_header(line@, at.in_hunk),
        !has_prefix(line@, "diff --git"@),
    ensures
        r.0 == line_step(at, line@).0,
        match r.1 {
            Some(e) => line_step(at, line@).1 == Some(e@),
            None => line_step(at, line@).1 is None,
        },
{
    let at = Place { in_hunk: true, ..at };
    let list = words_of(line);
    let old_start = read_last_start(&list, '-');
    let new_start = read_last_start(&list, '+');
    match (old_start, new_start) {
        (Some(o), Some(n)) => {
            let base_old = if at.seen_hunk { at.old_no } else { 1 };
            let base_new = if at.seen_hunk { at.new_no } else { 1 };
            let hidden_old: usize = if o >= base_old { o - base_old } else { 0 };
            let hidden_new: usize = if n >= base_new { n - base_new } else { 0 };
            let hidden: usize = if hidden_old <= hidden_new { hidden_old } else { hidden_new };
            let next = Place { old_no: o, new_no: n, seen_hunk: true, ..at };
            if hidden > 0 {
                (next, Some(Ev::Omitted(hidden)))
            } else {
                (next, None)
            }
        },
        _ => (at, None),
    }
}

fn read_line(at: Place, line: &Vec<char>) -> (r: (Place, Option<Ev>))
    ensures
        r.0 == line_step(at, line@).0,
        match r.1 {
            Some(e) => line_step(at, line@).1 == Some(e@),
            None => line_step(at, line@).1 is None,
        },
{
    let at = if starts_with_str(line, "diff --git") {
        Place { in_hunk: false, seen_hunk: false, ..at }
    } else {
        at
    };
    if header_line(line, at.in_hunk) {
        return (at, None);
    }
    if starts_with_str(line, "@@") {
        return read_hunk(at, line);
    }
    if line.len() == 0 {
        let e = Ev::Ctx(at.old_no, at.new_no, String::new());
        return (
            Place { old_no: next_no(at.old_no), new_no: next_no(at.new_no), ..at },
            Some(e),
        );
    }
    let sign = line[0];
    let rest = slice_of(line, 1, line.len());
    if sign == '-' {
        (Place { old_no: next_no(at.old_no), ..at }, Some(Ev::Del(at.old_no, text_of(&rest))))
    } else if sign == '+' {
        (Place { new_no: next_no(at.new_no), ..at }, Some(Ev::Add(at.new_no, text_of(&rest))))
    } else if sign == ' ' {
        (
            Place { old_no: next_no(at.old_no), new_no: next_no(at.new_no), ..at },
            Some(Ev::Ctx(at.old_no, at.new_no, text_of(&rest))),
        )
    } else {
        (at, Some(Ev::Plain(text_of(line))))
    }
}

/// Parses a unified diff into events.
pub fn parse_events(diff: &str) -> (r: Vec<Ev>)
    ensures
        evs_view(r@) == diff_events(diff@),
{
    let v = chars_of(diff);
    let all = lines_of(&v);
    let ghost parts = pieces(all@);
    let mut evs: Vec<Ev> = Vec::new();
    let mut at = Place { old_no: 0, new_no: 0, seen_hunk: false, in_hunk: false };
    let mut i: usize = 0;
    assert(parts.take(0) =~= Seq::empty());
    assert(evs_view(evs@) =~= Seq::empty());
    while i < all.len()
        invariant
            i <= all@.len(),
            parts == pieces(all@),
            diff_run(parts.take(i as int)) == (at, evs_view(evs@)),
        decreases all@.len() - i,
    {
        proof {
            assert(parts.take(i + 1).drop_last() =~= parts.take(i as int));
            assert(parts.take(i + 1).last() == all@[i as int]@);
        }
        let (next, ev) = read_line(at, &all[i]);
        match ev {
            Some(e) => {
                assert(evs_view(evs@.push(e)) =~= evs_view(evs@).push(e@));
                evs.push(e);
            },
            None => {},
        }
        at = next;
        i += 1;
    }
    assert(parts.take(i as int) =~= parts);
    evs
}

// ---- Folds ----

/// Lines of context that stay around each change.
pub const FOLD_MARGIN: usize = 3;

/// Identity of a fold across refreshes: the line numbers of its first line.
#[derive(Clone, Copy, Debug, PartialEq, Eq, Hash, Structural)]
pub struct FoldId {
    pub old_no: usize,
    pub new_no: usize,
}

/// A run of context lines that one row stands for.
#[derive(Clone, Copy, Debug, PartialEq, Eq, Structural)]
pub struct FoldRange {
    pub start: usize,
    pub end: usize,
    pub id: FoldId,
}

/// Whether event `i` is within the margin of something other than context.
pub open spec fn near_change(evs: Seq<EvView>, i: int) -> bool {
    exists|j: int|
        0 <= j < evs.len() && i - FOLD_MARGIN <= j <= i + FOLD_MARGIN && !((#[trigger] evs[j]) is Ctx)
}

/// The end of the run of events from `i` on that are near no change.
pub open spec fn far_end(evs: Seq<EvView>, i: int) -> int
    decreases evs.len() - i,
{
    if i >= evs.len() || near_change(evs, i) {
        i
    } else {
        far_end(evs, i + 1)
    }
}

/// The fold that starts at event `i`: a maximal run of two or more context
/// lines that are near no change.
pub open spec fn fold_at(evs: Seq<EvView>, i: int) -> Option<FoldRange> {
    if 0 <= i < evs.len() && !near_change(evs, i) && (i == 0 || near_change(evs, i - 1)) && far_end(
        evs,
        i,
    ) > i + 1 {
        Some(
            FoldRange {
                start: i as usize,
                end: far_end(evs, i) as usize,
                id: FoldId { old_no: evs[i]->Ctx_0, new_no: evs[i]->Ctx_1 },
            },
        )
    } else {
        None
    }
}

/// The folds that start before event `n`, in order.
pub open spec fn folds_before(evs: Seq<EvView>, n: int) -> Seq<FoldRange>
    decreases n,
{
    if n <= 0 {
        Seq::empty()
    } else {
        match fold_at(evs, n - 1) {
            Some(f) => folds_before(evs, n - 1).push(f),
            None => folds_before(evs, n - 1),
        }
    }
}

fn is_ctx(e: &Ev) -> (r: bool)
    ensures
        r == (e@ is Ctx),
{
    match e {
        Ev::Ctx(_, _, _) => true,
        _ => false,
    }
}

fn is_near(evs: &Vec<Ev>, i: usize) -> (r: bool)
    requires
        i < evs@.len(),
    ensures
        r == near_change(evs_view(evs@), i as int),
{
    let total = evs.len();
    let lo: usize = if i >= FOLD_MARGIN { i - FOLD_MARGIN } else { 0 };
    let hi: usize = if total - i > FOLD_MARGIN { i + FOLD_MARGIN } else { total - 1 };
    let mut j: usize = lo;
    while j <= hi
        invariant
            lo <= j <= hi + 1,
            hi < total,
            total == evs@.len(),
            i < total,
            lo == (if i >= FOLD_MARGIN { i - FOLD_MARGIN } else { 0 }),
            i <= hi <= i + FOLD_MARGIN,
            forall|k: int| lo <= k < j ==> (#[trigger] evs_view(evs@)[k]) is Ctx,
        decreases hi + 1 - j,
    {
        assert(evs_view(evs@)[j as int] == evs@[j as int]@);
        if !is_ctx(&evs[j]) {
            return true;
        }
        j += 1;
    }
    false
}

proof fn lemma_far_is_ctx(evs: Seq<EvView>, i: int)
    requires
        0 <= i < evs.len(),
        !near_change(evs, i),
    ensures
        evs[i] is Ctx,
{
}

proof fn lemma_far_end(evs: Seq<EvView>, i: int)
    requires
        0 <= i <= evs.len(),
    ensures
        i <= far_end(evs, i) <= evs.len(),
        forall|k: int| i <= k < far_end(evs, i) ==> !near_change(evs, k),
        far_end(evs, i) < evs.len() ==> near_change(evs, far_end(evs, i)),
    decreases evs.len() - i,
{
    if i < evs.len() && !near_change(evs, i) {
        lemma_far_end(evs, i + 1);
    }
}

/// Within a run no further fold starts.
proof fn lemma_no_fold_inside(evs: Seq<EvView>, start: int, i: int, end: int)
    requires
        0 <= start,
        start < i <= end <= evs.len(),
        forall|k: int| start <= k < end ==> !near_change(evs, k),
    ensures
        folds_before(evs, i) == folds_before(evs, start + 1),
    decreases i,
{
    if i > start + 1 {
        lemma_no_fold_inside(evs, start, i - 1, end);
        assert(!near_change(evs, i - 2));
    }
}

/// Collapses long runs of context: the folds of a list of events, in order.
pub fn fold_ranges(evs: &Vec<Ev>) -> (r: Vec<FoldRange>)
    ensures
        r@ == folds_before(evs_view(evs@), evs@.len() as int),
{
    let mut folds: Vec<FoldRange> = Vec::new();
    let mut i: usize = 0;
    let ghost all = evs_view(evs@);
    while i < evs.len()
        invariant
            i <= evs@.len(),
            all == evs_view(evs@),
            folds@ =~= folds_before(all, i as int),
            i == 0 || i == all.len() || near_change(all, i - 1) || near_change(all, i as int),
        decreases evs@.len() - i,
    {
        if is_near(evs, i) {
            i += 1;
            continue;
        }
        let start = i;
        assert(i == 0 || near_change(all, i - 1));
        while i < evs.len() && !is_near(evs, i)
            invariant
                start <= i <= evs@.len(),
                all == evs_view(evs@),
                forall|k: int| start <= k < i ==> !near_change(all, k),
                far_end(all, start as int) == far_end(all, i as int),
            decreases evs@.len() - i,
        {
            i += 1;
        }
        proof {
            lemma_no_fold_inside(all, start as int, i as int, i as int);
            lemma_far_is_ctx(all, start as int);
            assert(all[start as int] == evs@[start as int]@);
        }
        if i - start > 1 {
            match &evs[start] {
                Ev::Ctx(old_no, new_no, _) => {
                    let f = FoldRange {
                        start,
                        end: i,
                        id: FoldId { old_no: *old_no, new_no: *new_no },
                    };
                    assert(fold_at(all, start as int) == Some(f));
                    folds.push(f);
                },
                _ => {},
            }
        }
    }
    folds
}

// ---- Word ranges ----

/// The start of the run of deletions that ends right before `i`.
pub open spec fn dels_from(evs: Seq<EvView>, i: int) -> int
    decreases i,
{
    if i <= 0 || !(evs[i - 1] is Del) {
        i
    } else {
        dels_from(evs, i - 1)
    }
}

/// The end of the run of deletions that starts at `i`.
pub open spec fn dels_to(evs: Seq<EvView>, i: int) -> int
    decreases evs.len() - i,
{
    if i >= evs.len() || !(evs[i] is Del) {
        i
    } else {
        dels_to(evs, i + 1)
    }
}

/// The start of the run of additions that ends right before `i`.
pub open spec fn adds_from(evs: Seq<EvView>, i: int) -> int
    decreases i,
{
    if i <= 0 || !(evs[i - 1] is Add) {
        i
    } else {
        adds_from(evs, i - 1)
    }
}

/// The end of the run of additions that starts at `i`.
pub open spec fn adds_to(evs: Seq<EvView>, i: int) -> int
    decreases evs.len() - i,
{
    if i >= evs.len() || !(evs[i] is Add) {
        i
    } else {
        adds_to(evs, i + 1)
    }
}

/// The event that a change is compared with: the first deletion of a run with
/// the first addition of the run right after it, and so on.
pub open spec fn partner(evs: Seq<EvView>, i: int) -> Option<int> {
    match evs[i] {
        EvView::Del(..) => {
            let s = dels_from(evs, i);
            let m = dels_to(evs, i);
            if m + (i - s) < adds_to(evs, m) {
                Some(m + (i - s))
            } else {
                None
            }
        },
        EvView::Add(..) => {
            let m = adds_from(evs, i);
            let s = dels_from(evs, m);
            if s + (i - m) < m {
                Some(s + (i - m))
            } else {
                None
            }
        },
        _ => None,
    }
}

pub open spec fn ev_text(e: EvView) -> Seq<char> {
    match e {
        EvView::Ctx(_, _, t) => t,
        EvView::Del(_, t) => t,
        EvView::Add(_, t) => t,
        EvView::Plain(t) => t,
        EvView::Omitted(_) => Seq::empty(),
    }
}

/// How many characters two texts share at their start.
pub open spec fn shared_front(a: Seq<char>, b: Seq<char>) -> nat
    decreases a.len(),
{
    if a.len() > 0 && b.len() > 0 && a[0] == b[0] {
        1 + shared_front(after(a, 1), after(b, 1))
    } else {
        0
    }
}

/// How many characters two texts share at their end.
pub open spec fn shared_back(a: Seq<char>, b: Seq<char>) -> nat
    decreases a.len(),
{
    if a.len() > 0 && b.len() > 0 && a.last() == b.last() {
        1 + shared_back(a.drop_last(), b.drop_last())
    } else {
        0
    }
}

/// The differing middle of `a` against `b`, in characters, where the two share
/// anything at their start or, after that, at their end.
pub open spec fn changed_middle(a: Seq<char>, b: Seq<char>) -> Option<(int, int)> {
    let p = shared_front(a, b);
    let s = shared_back(after(a, p as int), after(b, p as int));
    if p + s == 0 {
        None
    } else {
        Some((p as int, a.len() - s))
    }
}

/// The word-level range of event `i`.
pub open spec fn word_range(evs: Seq<EvView>, i: int) -> Option<(int, int)> {
    match partner(evs, i) {
        Some(j) => changed_middle(ev_text(evs[i]), ev_text(evs[j])),
        None => None,
    }
}

proof fn lemma_shared_front(a: Seq<char>, b: Seq<char>, n: int)
    requires
        0 <= n <= a.len(),
        n <= b.len(),
        forall|k: int| 0 <= k < n ==> a[k] == b[k],
        n == a.len() || n == b.len() || a[n] != b[n],
    ensures
        shared_front(a, b) == n,
    decreases n,
{
    if n > 0 {
        lemma_shared_front(after(a, 1), after(b, 1), n - 1);
    }
}

proof fn lemma_shared_front_sym(a: Seq<char>, b: Seq<char>)
    ensures
        shared_front(a, b) == shared_front(b, a),
        shared_front(a, b) <= a.len(),
        shared_front(a, b) <= b.len(),
    decreases a.len(),
{
    if a.len() > 0 && b.len() > 0 && a[0] == b[0] {
        lemma_shared_front_sym(after(a, 1), after(b, 1));
    }
}

proof fn lemma_shared_back_sym(a: Seq<char>, b: Seq<char>)
    ensures
        shared_back(a, b) == shared_back(b, a),
        shared_back(a, b) <= a.len(),
        shared_back(a, b) <= b.len(),
    decreases a.len(),
{
    if a.len() > 0 && b.len() > 0 && a.last() == b.last() {
        lemma_shared_back_sym(a.drop_last(), b.drop_last());
    }
}

proof fn lemma_shared_back(a: Seq<char>, b: Seq<char>, n: int)
    requires
        0 <= n <= a.len(),
        n <= b.len(),
        forall|j: int| a.len() - n <= j < a.len() ==> #[trigger] a[j] == b[j - a.len() + b.len()],
        n == a.len() || n == b.len() || a[a.len() - 1 - n] != b[b.len() - 1 - n],
    ensures
        shared_back(a, b) == n,
    decreases n,
{
    if n > 0 {
        assert(a[a.len() - 1] == b[b.len() - 1]);
        let x = a.drop_last();
        let y = b.drop_last();
        assert forall|j: int| x.len() - (n - 1) <= j < x.len() implies #[trigger] x[j] == y[j - x.len()
            + y.len()] by {
            assert(a[j] == b[j - a.len() + b.len()]);
        }
        lemma_shared_back(x, y, n - 1);
    }
}

fn front(a: &Vec<char>, b: &Vec<char>) -> (r: usize)
    ensures
        r == shared_front(a@, b@),
        r <= a@.len(),
        r <= b@.len(),
{
    let mut n: usize = 0;
    while n < a.len() && n < b.len() && a[n] == b[n]
        invariant
            n <= a@.len(),
            n <= b@.len(),
            forall|k: int| 0 <= k < n ==> a@[k] == b@[k],
        decreases a@.len() - n,
    {
        n += 1;
    }
    proof {
        lemma_shared_front(a@, b@, n as int);
    }
    n
}

fn back(a: &Vec<char>, b: &Vec<char>, p: usize) -> (r: usize)
    requires
        p <= a@.len(),
        p <= b@.len(),
    ensures
        r == shared_back(after(a@, p as int), after(b@, p as int)),
        p + r <= a@.len(),
        p + r <= b@.len(),
{
    let ghost x = after(a@, p as int);
    let ghost y = after(b@, p as int);
    let mut n: usize = 0;
    while n < a.len() - p && n < b.len() - p && a[a.len() - 1 - n] == b[b.len() - 1 - n]
        invariant
            p <= a@.len(),
            p <= b@.len(),
            x == after(a@, p as int),
            y == after(b@, p as int),
            n <= x.len(),
            n <= y.len(),
            forall|j: int| x.len() - n <= j < x.len() ==> #[trigger] x[j] == y[j - x.len() + y.len()],
        decreases a@.len() - n,
    {
        assert(x[x.len() - 1 - n] == a@[a@.len() - 1 - n]);
        assert(y[y.len() - 1 - n] == b@[b@.len() - 1 - n]);
        n += 1;
    }
    proof {
        if n < x.len() && n < y.len() {
            assert(x[x.len() - 1 - n] == a@[a@.len() - 1 - n]);
            assert(y[y.len() - 1 - n] == b@[b@.len() - 1 - n]);
        }
        lemma_shared_back(x, y, n as int);
    }
    n
}

/// The view of an optional range.
pub open spec fn range_view(r: Option<(usize, usize)>) -> Option<(int, int)> {
    match r {
        Some((a, b)) => Some((a as int, b as int)),
        None => None,
    }
}

fn middles(old_text: &str, new_text: &str) -> (r: (Option<(usize, usize)>, Option<(usize, usize)>))
    ensures
        range_view(r.0) == changed_middle(old_text@, new_text@),
        range_view(r.1) == changed_middle(new_text@, old_text@),
{
    let a = chars_of(old_text);
    let b = chars_of(new_text);
    let p = front(&a, &b);
    let s = back(&a, &b, p);
    proof {
        lemma_shared_front_sym(a@, b@);
        lemma_shared_back_sym(after(a@, p as int), after(b@, p as int));
    }
    if p == 0 && s == 0 {
        (None, None)
    } else {
        (Some((p, a.len() - s)), Some((p, b.len() - s)))
    }
}

fn text_at<'a>(evs: &'a Vec<Ev>, i: usize) -> (r: &'a str)
    requires
        i < evs@.len(),
        evs@[i as int]@ is Del || evs@[i as int]@ is Add,
    ensures
        r@ == ev_text(evs@[i as int]@),
{
    match &evs[i] {
        Ev::Del(_, t) => t.as_str(),
        Ev::Add(_, t) => t.as_str(),
        Ev::Ctx(_, _, t) => t.as_str(),
        Ev::Plain(t) => t.as_str(),
        Ev::Omitted(_) => "",
    }
}

fn del_at(evs: &Vec<Ev>, i: usize) -> (r: bool)
    ensures
        r == (i < evs@.len() && evs_view(evs@)[i as int] is Del),
{
    if i < evs.len() {
        assert(evs_view(evs@)[i as int] == evs@[i as int]@);
        match &evs[i] {
            Ev::Del(_, _) => true,
            _ => false,
        }
    } else {
        false
    }
}

fn add_at(evs: &Vec<Ev>, i: usize) -> (r: bool)
    ensures
        r == (i < evs@.len() && evs_view(evs@)[i as int] is Add),
{
    if i < evs.len() {
        assert(evs_view(evs@)[i as int] == evs@[i as int]@);
        match &evs[i] {
            Ev::Add(_, _) => true,
            _ => false,
        }
    } else {
        false
    }
}

proof fn lemma_dels_from_run(evs: Seq<EvView>, s: int, i: int)
    requires
        0 <= s <= i <= evs.len(),
        forall|k: int| s <= k < i ==> evs[k] is Del,
        s == 0 || !(evs[s - 1] is Del),
    ensures
        dels_from(evs, i) == s,
    decreases i - s,
{
    if i > s {
        lemma_dels_from_run(evs, s, i - 1);
    }
}

proof fn lemma_adds_from_run(evs: Seq<EvView>, s: int, i: int)
    requires
        0 <= s <= i <= evs.len(),
        forall|k: int| s <= k < i ==> evs[k] is Add,
        s == 0 || !(evs[s - 1] is Add),
    ensures
        adds_from(evs, i) == s,
    decreases i - s,
{
    if i > s {
        lemma_adds_from_run(evs, s, i - 1);
    }
}

proof fn lemma_dels_to_run(evs: Seq<EvView>, i: int, e: int)
    requires
        0 <= i <= e <= evs.len(),
        forall|k: int| i <= k < e ==> evs[k] is Del,
        e == evs.len() || !(evs[e] is Del),
    ensures
        dels_to(evs, i) == e,
    decreases e - i,
{
    if i < e {
        lemma_dels_to_run(evs, i + 1, e);
    }
}

proof fn lemma_adds_to_run(evs: Seq<EvView>, i: int, e: int)
    requires
        0 <= i <= e <= evs.len(),
        forall|k: int| i <= k < e ==> evs[k] is Add,
        e == evs.len() || !(evs[e] is Add),
    ensures
        adds_to(evs, i) == e,
    decreases e - i,
{
    if i < e {
        lemma_adds_to_run(evs, i + 1, e);
    }
}

/// The partners inside one run of deletions and the additions after it.
proof fn lemma_partners(evs: Seq<EvView>, s: int, m: int, e: int, i: int)
    requires
        0 <= s <= m <= e <= evs.len(),
        s <= i < e,
        forall|k: int| s <= k < m ==> evs[k] is Del,
        forall|k: int| m <= k < e ==> evs[k] is Add,
        e == evs.len() || !(evs[e] is Add),
        m == evs.len() || !(evs[m] is Del),
        s == 0 || !(evs[s - 1] is Del),
        s == m ==> (s == 0 || !(evs[s - 1] is Add)),
    ensures
        partner(evs, i) == (if i < m {
            if m + (i - s) < e {
                Some(m + (i - s))
            } else {
                None
            }
        } else {
            if s + (i - m) < m {
                Some(s + (i - m))
            } else {
                None
            }
        }),
{
    if i < m {
        lemma_dels_from_run(evs, s, i);
        lemma_dels_to_run(evs, i, m);
        lemma_adds_to_run(evs, m, e);
    } else {
        if s < m {
            assert(evs[m - 1] is Del);
        }
        lemma_adds_from_run(evs, m, i);
        lemma_dels_from_run(evs, s, m);
    }
}

/// Where the next stretch of changes begins: the ends of the deletions and of
/// the additions that start at `i`.
fn change_block(evs: &Vec<Ev>, i: usize) -> (r: (usize, usize))
    requires
        i < evs@.len(),
    ensures
        i <= r.0 <= r.1 <= evs@.len(),
        forall|k: int| i <= k < r.0 ==> evs_view(evs@)[k] is Del,
        forall|k: int| r.0 <= k < r.1 ==> evs_view(evs@)[k] is Add,
        r.1 == evs@.len() || !(evs_view(evs@)[r.1 as int] is Add),
        r.0 == evs@.len() || !(evs_view(evs@)[r.0 as int] is Del),
{
    let total = evs.len();
    let mut m: usize = i;
    while m < total && del_at(evs, m)
        invariant
            total == evs@.len(),
            i <= m <= evs@.len(),
            forall|k: int| i <= k < m ==> evs_view(evs@)[k] is Del,
        decreases evs@.len() - m,
    {
        m += 1;
    }
    let mut e: usize = m;
    while e < total && add_at(evs, e)
        invariant
            total == evs@.len(),
            i <= m <= e <= evs@.len(),
            forall|k: int| m <= k < e ==> evs_view(evs@)[k] is Add,
        decreases evs@.len() - e,
    {
        e += 1;
    }
    (m, e)
}

/// Appends the word ranges of one block of deletions and additions.
fn push_block(
    evs: &Vec<Ev>,
    s: usize,
    m: usize,
    e: usize,
    out: &mut Vec<Option<(usize, usize)>>,
)
    requires
        s <= m <= e <= evs@.len(),
        old(out)@.len() == s,
        forall|k: int| s <= k < m ==> evs_view(evs@)[k] is Del,
        forall|k: int| m <= k < e ==> evs_view(evs@)[k] is Add,
        e == evs@.len() || !(evs_view(evs@)[e as int] is Add),
        m == evs@.len() || !(evs_view(evs@)[m as int] is Del),
        s == 0 || !(evs_view(evs@)[s - 1] is Del),
        s == m ==> (s == 0 || !(evs_view(evs@)[s - 1] is Add)),
    ensures
        final(out)@.len() == e,
        forall|k: int| 0 <= k < s ==> final(out)@[k] == old(out)@[k],
        forall|k: int|
            s <= k < e ==> range_view(#[trigger] final(out)@[k]) == word_range(evs_view(evs@), k),
{
    let ghost all = evs_view(evs@);
    let mut i: usize = s;
    while i < e
        invariant
            s <= m <= e <= evs@.len(),
            s <= i <= e,
            all == evs_view(evs@),
            out@.len() == i,
            old(out)@.len() == s,
            forall|k: int| s <= k < m ==> all[k] is Del,
            forall|k: int| m <= k < e ==> all[k] is Add,
            e == evs@.len() || !(all[e as int] is Add),
            m == evs@.len() || !(all[m as int] is Del),
            s == 0 || !(all[s - 1] is Del),
            s == m ==> (s == 0 || !(all[s - 1] is Add)),
            forall|k: int| 0 <= k < s ==> out@[k] == old(out)@[k],
            forall|k: int| s <= k < i ==> range_view(#[trigger] out@[k]) == word_range(all, k),
        decreases e - i,
    {
        proof {
            lemma_partners(all, s as int, m as int, e as int, i as int);
            assert(all[i as int] == evs@[i as int]@);
        }
        if i < m {
            let k: usize = i - s;
            if k < e - m {
                assert(all[m + k] == evs@[m + k]@);
                let found = middles(text_at(evs, i), text_at(evs, m + k)).0;
                out.push(found);
            } else {
                out.push(None);
            }
        } else {
            let k: usize = i - m;
            if k < m - s {
                assert(all[s + k] == evs@[s + k]@);
                let found = middles(text_at(evs, s + k), text_at(evs, i)).1;
                out.push(found);
            } else {
                out.push(None);
            }
        }
        i += 1;
    }
}

/// The word-level range of each event: the differing middle of a changed line
/// against the line it is paired with.
pub fn word_ranges(evs: &Vec<Ev>) -> (r: Vec<Option<(usize, usize)>>)
    ensures
        r@.len() == evs@.len(),
        forall|i: int|
            0 <= i < r@.len() ==> range_view(#[trigger] r@[i]) == word_range(evs_view(evs@), i),
{
    let mut out: Vec<Option<(usize, usize)>> = Vec::new();
    let ghost all = evs_view(evs@);
    let mut i: usize = 0;
    while i < evs.len()
        invariant
            i <= evs@.len(),
            all == evs_view(evs@),
            out@.len() == i,
            i == 0 || i == evs@.len() || !(all[i - 1] is Del) && (!(all[i - 1] is Add) || !(
            all[i as int] is Add)) || (all[i - 1] is Del && !(all[i as int] is Del) && !(
            all[i as int] is Add)),
            forall|k: int| 0 <= k < i ==> range_view(#[trigger] out@[k]) == word_range(all, k),
        decreases evs@.len() - i,
    {
        let (m, e) = change_block(evs, i);
        if e == i {
            assert(!(all[i as int] is Del) && !(all[i as int] is Add));
            out.push(None);
            i += 1;
        } else {
            push_block(evs, i, m, e, &mut out);
            i = e;
        }
    }
    out
}

// ---- Word tint ----

/// How many characters the spans hold.
pub open spec fn span_chars(spans: Seq<SpanView>) -> nat
    decreases spans.len(),
{
    if spans.len() == 0 {
        0
    } else {
        span_chars(spans.drop_last()) + spans.last().text.len()
    }
}

/// `n` brought into `lo..=hi`.
pub open spec fn clamped(n: int, lo: int, hi: int) -> int {
    if n < lo {
        lo
    } else if n > hi {
        hi
    } else {
        n
    }
}

/// The pieces of a span that starts at character `pos`, where characters
/// `start..end` get the background `bg`.
pub open spec fn cut_span(s: SpanView, pos: int, start: int, end: int, bg: Color) -> Seq<SpanView> {
    let n = s.text.len();
    let a = clamped(start, pos, pos + n) - pos;
    let b = clamped(end, pos, pos + n) - pos;
    if a >= b {
        seq![s]
    } else {
        (if a > 0 {
            seq![SpanView { text: s.text.subrange(0, a), style: s.style }]
        } else {
            Seq::empty()
        }) + seq![SpanView { text: s.text.subrange(a, b), style: Style { bg: Some(bg), ..s.style } }]
            + (if b < n {
            seq![SpanView { text: s.text.subrange(b, n as int), style: s.style }]
        } else {
            Seq::empty()
        })
    }
}

/// The spans re-sliced so that characters `start..end` have the background.
pub open spec fn tinted(spans: Seq<SpanView>, start: int, end: int, bg: Color) -> Seq<SpanView>
    decreases spans.len(),
{
    if spans.len() == 0 {
        Seq::empty()
    } else {
        tinted(spans.drop_last(), start, end, bg) + cut_span(
            spans.last(),
            span_chars(spans.drop_last()) as int,
            start,
            end,
            bg,
        )
    }
}

/// A tint changes no text.
pub proof fn law_tint_keeps_the_text(spans: Seq<SpanView>, start: int, end: int, bg: Color)
    ensures
        spans_text(tinted(spans, start, end, bg)) == spans_text(spans),
    decreases spans.len(),
{
    if spans.len() > 0 {
        let prev = spans.drop_last();
        let s = spans.last();
        law_tint_keeps_the_text(prev, start, end, bg);
        let cut = cut_span(s, span_chars(prev) as int, start, end, bg);
        lemma_cut_text(s, span_chars(prev) as int, start, end, bg);
        lemma_spans_text_add(tinted(prev, start, end, bg), cut);
    }
}

proof fn lemma_spans_text_add(a: Seq<SpanView>, b: Seq<SpanView>)
    ensures
        spans_text(a + b) == spans_text(a) + spans_text(b),
    decreases b.len(),
{
    if b.len() == 0 {
        assert(a + b =~= a);
        assert(spans_text(a) + spans_text(b) =~= spans_text(a));
    } else {
        assert((a + b).drop_last() =~= a + b.drop_last());
        lemma_spans_text_add(a, b.drop_last());
        assert(spans_text(a + b) =~= spans_text(a) + spans_text(b));
    }
}

proof fn lemma_one_span_text(s: SpanView)
    ensures
        spans_text(seq![s]) == s.text,
{
    assert(seq![s].drop_last() =~= Seq::empty());
    assert(spans_text(seq![s].drop_last()) =~= Seq::empty());
    assert(spans_text(seq![s]) =~= s.text);
}

proof fn lemma_cut_text(s: SpanView, pos: int, start: int, end: int, bg: Color)
    ensures
        spans_text(cut_span(s, pos, start, end, bg)) == s.text,
{
    let n = s.text.len();
    let a = clamped(start, pos, pos + n) - pos;
    let b = clamped(end, pos, pos + n) - pos;
    lemma_one_span_text(s);
    if a < b {
        let x = SpanView { text: s.text.subrange(0, a), style: s.style };
        let y = SpanView { text: s.text.subrange(a, b), style: Style { bg: Some(bg), ..s.style } };
        let z = SpanView { text: s.text.subrange(b, n as int), style: s.style };
        lemma_one_span_text(x);
        lemma_one_span_text(y);
        lemma_one_span_text(z);
        let first = if a > 0 {
            seq![x]
        } else {
            Seq::empty()
        };
        let last = if b < n {
            seq![z]
        } else {
            Seq::empty()
        };
        lemma_spans_text_add(first, seq![y]);
        lemma_spans_text_add(first + seq![y], last);
        assert(spans_text(cut_span(s, pos, start, end, bg)) =~= s.text);
    }
}

/// Re-slices spans so that characters `start..end` carry `bg`.
pub fn overlay_bg(spans: &Vec<Span>, range: (usize, usize), bg: Color) -> (r: Vec<Span>)
    ensures
        spans_view(r@) == tinted(spans_view(spans@), range.0 as int, range.1 as int, bg),
{
    let (start, end) = range;
    let mut out: Vec<Span> = Vec::new();
    let mut pos: usize = 0;
    let mut i: usize = 0;
    let ghost all = spans_view(spans@);
    assert(all.take(0) =~= Seq::empty());
    assert(spans_view(out@) =~= Seq::empty());
    while i < spans.len()
        invariant
            i <= spans@.len(),
            all == spans_view(spans@),
            pos == (if span_chars(all.take(i as int)) <= usize::MAX {
                span_chars(all.take(i as int)) as int
            } else {
                usize::MAX as int
            }),
            spans_view(out@) == tinted(all.take(i as int), start as int, end as int, bg),
        decreases spans@.len() - i,
    {
        let ghost truth = span_chars(all.take(i as int)) as int;
        proof {
            assert(all.take(i + 1).drop_last() =~= all.take(i as int));
            assert(all.take(i + 1).last() == spans@[i as int]@);
        }
        let s = &spans[i];
        let v = chars_of(s.text.as_str());
        let n = v.len();
        let lo: usize = if start > pos { start - pos } else { 0 };
        let hi: usize = if end > pos { end - pos } else { 0 };
        let a: usize = if lo > n { n } else { lo };
        let b: usize = if hi > n { n } else { hi };
        let ghost before = out@;
        let ghost want = cut_span(s@, truth, start as int, end as int, bg);
        if a >= b {
            assert(want =~= seq![s@]);
            push_span(&mut out, s.clone());
            assert(spans_view(out@) =~= spans_view(before) + want);
        } else {
            assert(truth == pos);
            assert(clamped(start as int, truth, truth + n) - truth == a);
            assert(clamped(end as int, truth, truth + n) - truth == b);
            let style = s.style;
            if a > 0 {
                push_span(&mut out, styled(text_of(&slice_of(&v, 0, a)), style));
            }
            push_span(&mut out, styled(text_of(&slice_of(&v, a, b)), style.bg(bg)));
            if b < n {
                push_span(&mut out, styled(text_of(&slice_of(&v, b, n)), style));
            }
            assert(spans_view(out@) =~= spans_view(before) + want);
        }
        pos = if n > usize::MAX - pos { usize::MAX } else { pos + n };
        i += 1;
    }
    assert(all.take(i as int) =~= all);
    out
}

// ---- Rows ----

pub const DEL_BG: u32 = 0x45232f;

pub const DEL_WORD_BG: u32 = 0x6e3446;

pub const ADD_BG: u32 = 0x1f3a2a;

pub const ADD_WORD_BG: u32 = 0x30553f;

pub const DEL_MARK: u32 = 0xf38ba8;

pub const ADD_MARK: u32 = 0xa6e3a1;

pub const GUTTER_FG: u32 = 0x7f849c;

pub const FOLD_BG: u32 = 0x313244;

pub const FOLD_FG: u32 = 0xa6adc8;

#[derive(Clone, Copy, Debug, PartialEq, Eq, Structural)]
pub enum DiffSourceKind {
    Context,
    Deleted,
    Added,
}

/// Source text and line numbers behind one selectable row.
#[derive(Debug, PartialEq, Eq)]
pub struct DiffSource {
    pub text: String,
    pub old_line: Option<usize>,
    pub new_line: Option<usize>,
    pub kind: DiffSourceKind,
}

#[verifier::ext_equal]
pub struct SourceView {
    pub text: Seq<char>,
    pub old_line: Option<usize>,
    pub new_line: Option<usize>,
    pub kind: DiffSourceKind,
}

impl View for DiffSource {
    type V = SourceView;

    open spec fn view(&self) -> SourceView {
        SourceView {
            text: self.text@,
            old_line: self.old_line,
            new_line: self.new_line,
            kind: self.kind,
        }
    }
}

impl Clone for DiffSource {
    fn clone(&self) -> (r: DiffSource)
        ensures
            r@ == self@,
    {
        DiffSource {
            text: self.text.clone(),
            old_line: self.old_line,
            new_line: self.new_line,
            kind: self.kind,
        }
    }
}

pub open spec fn source_view(s: Option<DiffSource>) -> Option<SourceView> {
    match s {
        Some(s) => Some(s@),
        None => None,
    }
}

pub open spec fn sources_view(v: Seq<Option<DiffSource>>) -> Seq<Option<SourceView>> {
    v.map_values(|s: Option<DiffSource>| source_view(s))
}

/// A searchable source row behind a collapsed fold.
pub struct DiffSearchSource {
    pub row: usize,
    pub fold: Option<FoldId>,
    pub source: DiffSource,
}

#[verifier::ext_equal]
pub struct SearchSourceView {
    pub row: int,
    pub fold: Option<FoldId>,
    pub source: SourceView,
}

impl View for DiffSearchSource {
    type V = SearchSourceView;

    open spec fn view(&self) -> SearchSourceView {
        SearchSourceView { row: self.row as int, fold: self.fold, source: self.source@ }
    }
}

pub open spec fn search_sources(v: Seq<DiffSearchSource>) -> Seq<SearchSourceView> {
    v.map_values(|s: DiffSearchSource| s@)
}

/// The rows of a diff, with the fold and the source of each.
pub struct RenderedDiff {
    pub lines: Vec<Line>,
    pub folds: Vec<Option<FoldId>>,
    pub first_change: Option<usize>,
    pub sources: Vec<Option<DiffSource>>,
    pub hidden_search_sources: Vec<DiffSearchSource>,
}

/// What the rows are made from: the events, the highlighted lines of the old
/// and of the new file, the expanded folds, and whether folds show at all.
#[verifier::ext_equal]
pub struct DiffParts {
    pub evs: Seq<EvView>,
    pub old_spans: Seq<Seq<SpanView>>,
    pub new_spans: Seq<Seq<SpanView>>,
    pub expanded: Seq<FoldId>,
    pub hide: bool,
}

/// What one row stands for.
#[verifier::ext_equal]
pub enum Unit {
    Fold(FoldRange),
    Event(int),
}

/// The rows from event `i` on: one for each collapsed fold, and one for each
/// event outside them.
pub open spec fn units(d: DiffParts, i: int) -> Seq<Unit>
    decreases d.evs.len() - i,
{
    if i < 0 || i >= d.evs.len() {
        Seq::empty()
    } else {
        match fold_at(d.evs, i) {
            Some(f) if d.hide && !d.expanded.contains(f.id) && i < far_end(d.evs, i) <= d.evs.len() => seq![
                Unit::Fold(f),
            ] + units(d, far_end(d.evs, i)),
            _ => seq![Unit::Event(i)] + units(d, i + 1),
        }
    }
}

/// How many of the first `i` events are lines of the old file.
pub open spec fn old_index(evs: Seq<EvView>, i: int) -> nat
    decreases i,
{
    if i <= 0 {
        0
    } else {
        old_index(evs, i - 1) + (if evs[i - 1] is Ctx || evs[i - 1] is Del {
            1nat
        } else {
            0nat
        })
    }
}

/// How many of the first `i` events are lines of the new file.
pub open spec fn new_index(evs: Seq<EvView>, i: int) -> nat
    decreases i,
{
    if i <= 0 {
        0
    } else {
        new_index(evs, i - 1) + (if evs[i - 1] is Ctx || evs[i - 1] is Add {
            1nat
        } else {
            0nat
        })
    }
}

/// The largest line number of an event.
pub open spec fn ev_number(e: EvView) -> usize {
    match e {
        EvView::Ctx(o, n, _) => if o >= n {
            o
        } else {
            n
        },
        EvView::Del(o, _) => o,
        EvView::Add(n, _) => n,
        _ => 0,
    }
}

pub open spec fn largest_number(evs: Seq<EvView>) -> usize
    decreases evs.len(),
{
    if evs.len() == 0 {
        0
    } else {
        let rest = largest_number(evs.drop_last());
        if rest >= ev_number(evs.last()) {
            rest
        } else {
            ev_number(evs.last())
        }
    }
}

/// The columns of the line-number gutter: as many as the largest number takes,
/// and two at least.
pub open spec fn gutter_width(evs: Seq<EvView>) -> nat {
    let n = digits(largest_number(evs) as nat).len();
    if n >= 2 {
        n
    } else {
        2
    }
}

/// `s` with spaces before it up to `w` columns.
pub open spec fn right_aligned(s: Seq<char>, w: nat) -> Seq<char> {
    if s.len() < w {
        spaces((w - s.len()) as nat) + s
    } else {
        s
    }
}

pub open spec fn gutter(w: nat, line: usize, mark: Option<Color>) -> Seq<SpanView> {
    seq![
        SpanView {
            text: right_aligned(digits(line as nat), w).push(' '),
            style: fg_style(Color::Rgb(GUTTER_FG)),
        },
        match mark {
            Some(c) => SpanView { text: "▌ "@, style: fg_style(c) },
            None => SpanView { text: "  "@, style: no_style() },
        },
    ]
}

/// The row that stands for `n` unchanged lines.
pub open spec fn fold_line(w: nat, n: nat) -> LineView {
    LineView {
        spans: seq![
            SpanView {
                text: spaces(w + 2) + "⋯  "@ + digits(n) + " unmodified lines"@,
                style: fg_style(Color::Rgb(FOLD_FG)),
            },
        ],
        style: bg_style(Color::Rgb(FOLD_BG)),
    }
}

/// The spans of a changed line, with the word-level tint.
pub open spec fn changed_spans(
    spans: Seq<SpanView>,
    range: Option<(int, int)>,
    tint: Color,
) -> Seq<SpanView> {
    tabs_expanded(
        match range {
            Some((a, b)) => tinted(spans, a, b, tint),
            None => spans,
        },
    )
}

pub open spec fn event_line(d: DiffParts, i: int) -> LineView {
    let w = gutter_width(d.evs);
    match d.evs[i] {
        EvView::Omitted(n) => fold_line(w, n as nat),
        EvView::Plain(t) => LineView {
            spans: seq![SpanView { text: t, style: Style { dim: true, ..no_style() } }],
            style: no_style(),
        },
        EvView::Ctx(_, n, _) => LineView {
            spans: gutter(w, n, None) + tabs_expanded(d.new_spans[new_index(d.evs, i) as int]),
            style: no_style(),
        },
        EvView::Del(o, _) => LineView {
            spans: gutter(w, o, Some(Color::Rgb(DEL_MARK))) + changed_spans(
                d.old_spans[old_index(d.evs, i) as int],
                word_range(d.evs, i),
                Color::Rgb(DEL_WORD_BG),
            ),
            style: bg_style(Color::Rgb(DEL_BG)),
        },
        EvView::Add(n, _) => LineView {
            spans: gutter(w, n, Some(Color::Rgb(ADD_MARK))) + changed_spans(
                d.new_spans[new_index(d.evs, i) as int],
                word_range(d.evs, i),
                Color::Rgb(ADD_WORD_BG),
            ),
            style: bg_style(Color::Rgb(ADD_BG)),
        },
    }
}

pub open spec fn event_source(e: EvView) -> Option<SourceView> {
    match e {
        EvView::Ctx(o, n, text) => Some(
            SourceView {
                text,
                old_line: Some(o),
                new_line: Some(n),
                kind: DiffSourceKind::Context,
            },
        ),
        EvView::Del(o, text) => Some(
            SourceView { text, old_line: Some(o), new_line: None, kind: DiffSourceKind::Deleted },
        ),
        EvView::Add(n, text) => Some(
            SourceView { text, old_line: None, new_line: Some(n), kind: DiffSourceKind::Added },
        ),
        _ => None,
    }
}

pub open spec fn unit_line(d: DiffParts, u: Unit) -> LineView {
    match u {
        Unit::Fold(f) => fold_line(gutter_width(d.evs), (f.end - f.start) as nat),
        Unit::Event(i) => event_line(d, i),
    }
}

pub open spec fn unit_fold(u: Unit) -> Option<FoldId> {
    match u {
        Unit::Fold(f) => Some(f.id),
        Unit::Event(_) => None,
    }
}

pub open spec fn unit_source(d: DiffParts, u: Unit) -> Option<SourceView> {
    match u {
        Unit::Fold(_) => None,
        Unit::Event(i) => event_source(d.evs[i]),
    }
}

pub open spec fn unit_changes(d: DiffParts, u: Unit) -> bool {
    match u {
        Unit::Fold(_) => false,
        Unit::Event(i) => d.evs[i] is Del || d.evs[i] is Add,
    }
}

/// The first row that shows a change.
pub open spec fn first_changed(d: DiffParts, us: Seq<Unit>) -> Option<int>
    decreases us.len(),
{
    if us.len() == 0 {
        None
    } else {
        match first_changed(d, us.drop_last()) {
            Some(k) => Some(k),
            None => if unit_changes(d, us.last()) {
                Some(us.len() - 1)
            } else {
                None
            },
        }
    }
}

/// The lines behind a fold that is shown in row `row`.
pub open spec fn fold_sources(d: DiffParts, f: FoldRange, row: int) -> Seq<SearchSourceView> {
    Seq::new(
        (f.end - f.start) as nat,
        |k: int|
            SearchSourceView {
                row,
                fold: Some(f.id),
                source: event_source(d.evs[f.start + k]).unwrap(),
            },
    )
}

/// The lines behind all folds among the rows.
pub open spec fn hidden_sources(d: DiffParts, us: Seq<Unit>) -> Seq<SearchSourceView>
    decreases us.len(),
{
    if us.len() == 0 {
        Seq::empty()
    } else {
        match us.last() {
            Unit::Fold(f) => hidden_sources(d, us.drop_last()) + fold_sources(d, f, us.len() - 1),
            Unit::Event(_) => hidden_sources(d, us.drop_last()),
        }
    }
}

pub open spec fn index_view(r: Option<usize>) -> Option<int> {
    match r {
        Some(n) => Some(n as int),
        None => None,
    }
}

/// Whether a rendered diff shows exactly these rows.
pub open spec fn shows(r: RenderedDiff, d: DiffParts, us: Seq<Unit>) -> bool {
    &&& lines_view(r.lines@) == us.map_values(|u: Unit| unit_line(d, u))
    &&& r.folds@ == us.map_values(|u: Unit| unit_fold(u))
    &&& sources_view(r.sources@) == us.map_values(|u: Unit| unit_source(d, u))
    &&& index_view(r.first_change) == first_changed(d, us)
    &&& search_sources(r.hidden_search_sources@) == hidden_sources(d, us)
}

fn read_width(evs: &Vec<Ev>) -> (r: usize)
    ensures
        r == gutter_width(evs_view(evs@)),
        2 <= r <= 20,
{
    let ghost all = evs_view(evs@);
    let mut top: usize = 0;
    let mut i: usize = 0;
    assert(all.take(0) =~= Seq::empty());
    while i < evs.len()
        invariant
            i <= evs@.len(),
            all == evs_view(evs@),
            top == largest_number(all.take(i as int)),
        decreases evs@.len() - i,
    {
        proof {
            assert(all.take(i + 1).drop_last() =~= all.take(i as int));
            assert(all.take(i + 1).last() == evs@[i as int]@);
        }
        let n: usize = match &evs[i] {
            Ev::Ctx(o, n, _) => if *o >= *n { *o } else { *n },
            Ev::Del(o, _) => *o,
            Ev::Add(n, _) => *n,
            _ => 0,
        };
        if top < n {
            top = n;
        }
        i += 1;
    }
    assert(all.take(i as int) =~= all);
    let d = digits_of(top);
    proof {
        lemma_digits_len(top as nat, 20);
    }
    if d.len() >= 2 {
        d.len()
    } else {
        2
    }
}

/// Ten to the power of `k`.
spec fn ten_pow(k: nat) -> nat
    decreases k,
{
    if k == 0 {
        1
    } else {
        10 * ten_pow((k - 1) as nat)
    }
}

proof fn lemma_digits_at_most(n: nat, k: nat)
    requires
        k >= 1,
        n < ten_pow(k),
    ensures
        digits(n).len() <= k,
    decreases k,
{
    if n >= 10 {
        reveal_with_fuel(ten_pow, 2);
        assert(k > 1);
        lemma_digits_at_most(n / 10, (k - 1) as nat);
    }
}

proof fn lemma_digits_len(n: nat, k: nat)
    requires
        n <= usize::MAX,
        k == 20,
    ensures
        digits(n).len() <= 20,
{
    reveal_with_fuel(ten_pow, 21);
    lemma_digits_at_most(n, 20);
}

fn aligned_number(n: usize, w: usize) -> (r: Vec<char>)
    ensures
        r@ == right_aligned(digits(n as nat), w as nat),
{
    let d = digits_of(n);
    if d.len() < w {
        let mut out: Vec<char> = Vec::new();
        push_spaces(&mut out, w - d.len());
        push_all(&mut out, &d);
        assert(out@ =~= right_aligned(digits(n as nat), w as nat));
        out
    } else {
        d
    }
}

fn make_gutter(w: usize, line: usize, mark: Option<Color>) -> (r: Vec<Span>)
    ensures
        spans_view(r@) == gutter(w as nat, line, mark),
{
    let mut number = aligned_number(line, w);
    number.push(' ');
    let mut out: Vec<Span> = Vec::new();
    let first = styled(text_of(&number), Style::default().fg(Color::Rgb(GUTTER_FG)));
    let second = match mark {
        Some(c) => styled("▌ ".to_string(), Style::default().fg(c)),
        None => styled("  ".to_string(), Style::default()),
    };
    out.push(first);
    out.push(second);
    assert(spans_view(out@) =~= gutter(w as nat, line, mark));
    out
}

fn make_fold_line(w: usize, n: usize) -> (r: Line)
    requires
        w <= 20,
    ensures
        r@ == fold_line(w as nat, n as nat),
{
    let mut text: Vec<char> = Vec::new();
    push_spaces(&mut text, w + 2);
    push_text(&mut text, "⋯  ");
    let d = digits_of(n);
    push_all(&mut text, &d);
    push_text(&mut text, " unmodified lines");
    assert(text@ =~= spaces((w + 2) as nat) + "⋯  "@ + digits(n as nat) + " unmodified lines"@);
    let mut spans: Vec<Span> = Vec::new();
    spans.push(styled(text_of(&text), Style::default().fg(Color::Rgb(FOLD_FG))));
    assert(spans_view(spans@) =~= fold_line(w as nat, n as nat).spans);
    Line { spans, style: Style::default().bg(Color::Rgb(FOLD_BG)) }
}

fn changed_row(
    w: usize,
    number: usize,
    mark: Color,
    spans: &Vec<Span>,
    range: Option<(usize, usize)>,
    tint: Color,
    bg: Color,
) -> (r: Line)
    ensures
        r@ == (LineView {
            spans: gutter(w as nat, number, Some(mark)) + changed_spans(
                spans_view(spans@),
                range_view(range),
                tint,
            ),
            style: bg_style(bg),
        }),
{
    let mut all = make_gutter(w, number, Some(mark));
    let body = match range {
        Some(r) => {
            let over = overlay_bg(spans, r, tint);
            expand_tabs(&over)
        },
        None => expand_tabs(spans),
    };
    push_spans(&mut all, &body);
    Line { spans: all, style: Style::default().bg(bg) }
}

fn event_row(
    evs: &Vec<Ev>,
    i: usize,
    w: usize,
    old_row: Option<&Vec<Span>>,
    new_row: Option<&Vec<Span>>,
    range: Option<(usize, usize)>,
    Ghost(d): Ghost<DiffParts>,
) -> (r: Line)
    requires
        i < evs@.len(),
        d.evs == evs_view(evs@),
        w == gutter_width(d.evs),
        w <= 20,
        d.evs[i as int] is Ctx || d.evs[i as int] is Add ==> new_row is Some && spans_view(new_row->0@)
            == d.new_spans[new_index(d.evs, i as int) as int],
        d.evs[i as int] is Del ==> old_row is Some && spans_view(old_row->0@)
            == d.old_spans[old_index(d.evs, i as int) as int],
        range_view(range) == word_range(d.evs, i as int),
    ensures
        r@ == event_line(d, i as int),
{
    assert(d.evs[i as int] == evs@[i as int]@);
    match &evs[i] {
        Ev::Omitted(n) => make_fold_line(w, *n),
        Ev::Plain(t) => {
            let mut spans: Vec<Span> = Vec::new();
            spans.push(styled(t.clone(), Style::default().dim()));
            assert(spans_view(spans@) =~= event_line(d, i as int).spans);
            Line { spans, style: Style::default() }
        },
        Ev::Ctx(_, n, _) => {
            let mut all = make_gutter(w, *n, None);
            let body = expand_tabs(new_row.unwrap());
            push_spans(&mut all, &body);
            Line { spans: all, style: Style::default() }
        },
        Ev::Del(o, _) => changed_row(
            w,
            *o,
            Color::Rgb(DEL_MARK),
            old_row.unwrap(),
            range,
            Color::Rgb(DEL_WORD_BG),
            Color::Rgb(DEL_BG),
        ),
        Ev::Add(n, _) => changed_row(
            w,
            *n,
            Color::Rgb(ADD_MARK),
            new_row.unwrap(),
            range,
            Color::Rgb(ADD_WORD_BG),
            Color::Rgb(ADD_BG),
        ),
    }
}

fn make_source(e: &Ev) -> (r: Option<DiffSource>)
    ensures
        source_view(r) == event_source(e@),
{
    match e {
        Ev::Ctx(o, n, t) => Some(
            DiffSource {
                text: t.clone(),
                old_line: Some(*o),
                new_line: Some(*n),
                kind: DiffSourceKind::Context,
            },
        ),
        Ev::Del(o, t) => Some(
            DiffSource {
                text: t.clone(),
                old_line: Some(*o),
                new_line: None,
                kind: DiffSourceKind::Deleted,
            },
        ),
        Ev::Add(n, t) => Some(
            DiffSource {
                text: t.clone(),
                old_line: None,
                new_line: Some(*n),
                kind: DiffSourceKind::Added,
            },
        ),
        _ => None,
    }
}

// ---- Assembly ----

proof fn lemma_index_step(evs: Seq<EvView>, i: int)
    requires
        0 <= i < evs.len(),
    ensures
        old_index(evs, i + 1) == old_index(evs, i) + (if evs[i] is Ctx || evs[i] is Del {
            1nat
        } else {
            0nat
        }),
        new_index(evs, i + 1) == new_index(evs, i) + (if evs[i] is Ctx || evs[i] is Add {
            1nat
        } else {
            0nat
        }),
{
}

proof fn lemma_index_ctx(evs: Seq<EvView>, a: int, b: int)
    requires
        0 <= a <= b <= evs.len(),
        forall|k: int| a <= k < b ==> evs[k] is Ctx,
    ensures
        old_index(evs, b) == old_index(evs, a) + (b - a),
        new_index(evs, b) == new_index(evs, a) + (b - a),
    decreases b - a,
{
    if a < b {
        lemma_index_ctx(evs, a, b - 1);
    }
}

proof fn lemma_index_grows(evs: Seq<EvView>, a: int, b: int)
    requires
        0 <= a <= b <= evs.len(),
    ensures
        old_index(evs, a) <= old_index(evs, b),
        new_index(evs, a) <= new_index(evs, b),
    decreases b - a,
{
    if a < b {
        lemma_index_grows(evs, a, b - 1);
    }
}

/// What one more row does to everything that a rendered diff lists.
proof fn lemma_shows_push(d: DiffParts, us: Seq<Unit>, u: Unit)
    ensures
        us.push(u).map_values(|u: Unit| unit_line(d, u)) == us.map_values(
            |u: Unit| unit_line(d, u),
        ).push(unit_line(d, u)),
        us.push(u).map_values(|u: Unit| unit_fold(u)) == us.map_values(|u: Unit| unit_fold(u)).push(
            unit_fold(u),
        ),
        us.push(u).map_values(|u: Unit| unit_source(d, u)) == us.map_values(
            |u: Unit| unit_source(d, u),
        ).push(unit_source(d, u)),
        first_changed(d, us.push(u)) == (match first_changed(d, us) {
            Some(k) => Some(k),
            None => if unit_changes(d, u) {
                Some(us.len() as int)
            } else {
                None
            },
        }),
        hidden_sources(d, us.push(u)) == (match u {
            Unit::Fold(f) => hidden_sources(d, us) + fold_sources(d, f, us.len() as int),
            Unit::Event(_) => hidden_sources(d, us),
        }),
{
    assert(us.push(u).drop_last() =~= us);
    assert(us.push(u).map_values(|u: Unit| unit_line(d, u)) =~= us.map_values(
        |u: Unit| unit_line(d, u),
    ).push(unit_line(d, u)));
    assert(us.push(u).map_values(|u: Unit| unit_fold(u)) =~= us.map_values(
        |u: Unit| unit_fold(u),
    ).push(unit_fold(u)));
    assert(us.push(u).map_values(|u: Unit| unit_source(d, u)) =~= us.map_values(
        |u: Unit| unit_source(d, u),
    ).push(unit_source(d, u)));
}

fn holds_fold(list: &Vec<FoldId>, id: FoldId) -> (r: bool)
    ensures
        r == list@.contains(id),
{
    let mut i: usize = 0;
    while i < list.len()
        invariant
            i <= list@.len(),
            forall|k: int| 0 <= k < i ==> list@[k] != id,
        decreases list@.len() - i,
    {
        if list[i] == id {
            return true;
        }
        i += 1;
    }
    false
}

/// Adds the row of a collapsed fold and the lines behind it.
fn push_fold(
    out: &mut RenderedDiff,
    evs: &Vec<Ev>,
    f: FoldRange,
    w: usize,
    Ghost(d): Ghost<DiffParts>,
    Ghost(us): Ghost<Seq<Unit>>,
)
    requires
        d.evs == evs_view(evs@),
        w == gutter_width(d.evs),
        w <= 20,
        f.start <= f.end <= evs@.len(),
        forall|k: int| f.start <= k < f.end ==> d.evs[k] is Ctx,
        shows(*old(out), d, us),
        us.len() <= usize::MAX,
    ensures
        shows(*final(out), d, us.push(Unit::Fold(f))),
{
    let row = out.lines.len();
    proof {
        assert(lines_view(out.lines@).len() == out.lines@.len());
        assert(row == us.len());
        lemma_shows_push(d, us, Unit::Fold(f));
    }
    let ghost lines0 = out.lines@;
    let ghost sources0 = out.sources@;
    let line = make_fold_line(w, f.end - f.start);
    out.lines.push(line);
    out.folds.push(Some(f.id));
    out.sources.push(None);
    assert(lines_view(out.lines@) =~= lines_view(lines0).push(line@));
    assert(sources_view(out.sources@) =~= sources_view(sources0).push(None));
    let ghost hidden0 = search_sources(out.hidden_search_sources@);
    let ghost want = fold_sources(d, f, row as int);
    let ghost mid = *out;
    let mut i: usize = f.start;
    assert(hidden0 + want.take(0) =~= hidden0);
    while i < f.end
        invariant
            f.start <= i <= f.end <= evs@.len(),
            d.evs == evs_view(evs@),
            forall|k: int| f.start <= k < f.end ==> d.evs[k] is Ctx,
            want == fold_sources(d, f, row as int),
            out.lines == mid.lines,
            out.folds == mid.folds,
            out.sources == mid.sources,
            out.first_change == mid.first_change,
            search_sources(out.hidden_search_sources@) =~= hidden0 + want.take(i - f.start),
        decreases f.end - i,
    {
        assert(d.evs[i as int] == evs@[i as int]@);
        match make_source(&evs[i]) {
            Some(source) => {
                let s = DiffSearchSource { row, fold: Some(f.id), source };
                assert(s@ == want[i - f.start]);
                let ghost before = out.hidden_search_sources@;
                out.hidden_search_sources.push(s);
                assert(search_sources(out.hidden_search_sources@) =~= search_sources(before).push(s@));
            },
            None => {},
        }
        i += 1;
    }
    assert(want.take(i - f.start) =~= want);
}

/// Adds the row of one event.
fn push_event(
    out: &mut RenderedDiff,
    evs: &Vec<Ev>,
    i: usize,
    line: Line,
    Ghost(d): Ghost<DiffParts>,
    Ghost(us): Ghost<Seq<Unit>>,
)
    requires
        i < evs@.len(),
        d.evs == evs_view(evs@),
        line@ == event_line(d, i as int),
        shows(*old(out), d, us),
    ensures
        shows(*final(out), d, us.push(Unit::Event(i as int))),
{
    let row = out.lines.len();
    proof {
        assert(lines_view(out.lines@).len() == out.lines@.len());
        assert(row == us.len());
        lemma_shows_push(d, us, Unit::Event(i as int));
        assert(d.evs[i as int] == evs@[i as int]@);
    }
    let changes = del_at(evs, i) || add_at(evs, i);
    if changes && out.first_change.is_none() {
        out.first_change = Some(row);
    }
    let ghost lines0 = out.lines@;
    let ghost sources0 = out.sources@;
    let source = make_source(&evs[i]);
    out.lines.push(line);
    out.folds.push(None);
    out.sources.push(source);
    assert(lines_view(out.lines@) =~= lines_view(lines0).push(line@));
    assert(sources_view(out.sources@) =~= sources_view(sources0).push(source_view(source)));
}

/// What the rows of a diff are made from.
pub open spec fn diff_parts(
    evs: Seq<Ev>,
    old_spans: Seq<Vec<Span>>,
    new_spans: Seq<Vec<Span>>,
    expanded: Seq<FoldId>,
    hide: bool,
) -> DiffParts {
    DiffParts {
        evs: evs_view(evs),
        old_spans: rows_of_spans(old_spans),
        new_spans: rows_of_spans(new_spans),
        expanded,
        hide,
    }
}

fn row_at(rows: &Vec<Vec<Span>>, i: usize) -> (r: Option<&Vec<Span>>)
    ensures
        match r {
            Some(row) => i < rows@.len() && spans_view(row@) == rows_of_spans(rows@)[i as int],
            None => i >= rows@.len(),
        },
{
    if i < rows.len() {
        Some(&rows[i])
    } else {
        None
    }
}

/// The fold that starts at event `i`, among folds in order from `from` on.
proof fn lemma_fold_listed(evs: Seq<EvView>, n: int, k: int)
    requires
        0 <= n <= evs.len() <= usize::MAX,
        0 <= k < folds_before(evs, n).len(),
    ensures
        0 <= folds_before(evs, n)[k].start < n,
        fold_at(evs, folds_before(evs, n)[k].start as int) == Some(folds_before(evs, n)[k]),
    decreases n,
{
    if n > 0 {
        let prev = folds_before(evs, n - 1);
        if k < prev.len() {
            lemma_fold_listed(evs, n - 1, k);
            assert(folds_before(evs, n)[k] == prev[k]);
        }
    }
}

/// How many folds start before event `i`.
spec fn folds_count(evs: Seq<EvView>, i: int) -> nat {
    folds_before(evs, i).len()
}

proof fn lemma_folds_prefix(evs: Seq<EvView>, i: int, n: int)
    requires
        0 <= i <= n,
    ensures
        folds_before(evs, i).len() <= folds_before(evs, n).len(),
        folds_before(evs, n).take(folds_before(evs, i).len() as int) == folds_before(evs, i),
    decreases n - i,
{
    if i < n {
        lemma_folds_prefix(evs, i, n - 1);
        let a = folds_before(evs, i);
        assert(folds_before(evs, n).take(a.len() as int) =~= folds_before(evs, n - 1).take(
            a.len() as int,
        ));
    } else {
        assert(folds_before(evs, n).take(folds_before(evs, n).len() as int) =~= folds_before(evs, n));
    }
}

/// The fold at event `i`, looked up in the ordered list with the number of
/// folds before it.
proof fn lemma_fold_lookup(evs: Seq<EvView>, i: int)
    requires
        0 <= i < evs.len() <= usize::MAX,
    ensures
        ({
            let all = folds_before(evs, evs.len() as int);
            let k = folds_count(evs, i);
            match fold_at(evs, i) {
                Some(f) => k < all.len() && all[k as int] == f,
                None => k < all.len() ==> all[k as int].start != i,
            }
        }),
{
    let n = evs.len() as int;
    let all = folds_before(evs, n);
    let k = folds_count(evs, i);
    lemma_folds_prefix(evs, i + 1, n);
    match fold_at(evs, i) {
        Some(f) => {
            assert(folds_before(evs, i + 1)[k as int] == f);
            assert(all.take(k as int + 1)[k as int] == all[k as int]);
        },
        None => {
            if k < all.len() && all[k as int].start == i {
                lemma_fold_listed(evs, n, k as int);
            }
        },
    }
}

/// The rows from a collapsed fold on.
proof fn lemma_units_fold(d: DiffParts, i: int, us: Seq<Unit>, f: FoldRange)
    requires
        0 <= i < d.evs.len() <= usize::MAX,
        fold_at(d.evs, i) == Some(f),
        d.hide,
        !d.expanded.contains(f.id),
        us + units(d, i) == units(d, 0),
    ensures
        us.push(Unit::Fold(f)) + units(d, f.end as int) == units(d, 0),
        i < f.end <= d.evs.len(),
        f.start == i,
        forall|k: int| i <= k < f.end ==> d.evs[k] is Ctx,
        old_index(d.evs, f.end as int) == old_index(d.evs, i) + (f.end - f.start),
        new_index(d.evs, f.end as int) == new_index(d.evs, i) + (f.end - f.start),
        folds_count(d.evs, f.end as int) == folds_count(d.evs, i) + 1,
{
    lemma_far_end(d.evs, i);
    assert forall|k: int| i <= k < f.end implies d.evs[k] is Ctx by {
        lemma_far_is_ctx(d.evs, k);
    }
    lemma_index_ctx(d.evs, i, f.end as int);
    lemma_no_fold_inside(d.evs, i, f.end as int, f.end as int);
    let u = Unit::Fold(f);
    let rest = units(d, f.end as int);
    assert(units(d, i) == seq![u] + rest);
    assert(us.push(u) + rest =~= us + (seq![u] + rest));
}

/// The rows from an event outside any collapsed fold on.
proof fn lemma_units_event(d: DiffParts, i: int, us: Seq<Unit>)
    requires
        0 <= i < d.evs.len(),
        match fold_at(d.evs, i) {
            Some(f) => !d.hide || d.expanded.contains(f.id),
            None => true,
        },
        us + units(d, i) == units(d, 0),
    ensures
        us.push(Unit::Event(i)) + units(d, i + 1) == units(d, 0),
        folds_count(d.evs, i + 1) == folds_count(d.evs, i) + (if fold_at(d.evs, i) is Some {
            1nat
        } else {
            0nat
        }),
{
    let u = Unit::Event(i);
    let rest = units(d, i + 1);
    assert(units(d, i) == seq![u] + rest);
    assert(us.push(u) + rest =~= us + (seq![u] + rest));
}

/// Adds the row of event `i`, whose highlighted lines have the given numbers.
fn push_plain(
    out: &mut RenderedDiff,
    evs: &Vec<Ev>,
    i: usize,
    w: usize,
    old_spans: &Vec<Vec<Span>>,
    new_spans: &Vec<Vec<Span>>,
    at: (usize, usize),
    range: Option<(usize, usize)>,
    Ghost(d): Ghost<DiffParts>,
    Ghost(us): Ghost<Seq<Unit>>,
) -> (r: (usize, usize))
    requires
        i < evs@.len(),
        d.evs == evs_view(evs@),
        d.old_spans == rows_of_spans(old_spans@),
        d.new_spans == rows_of_spans(new_spans@),
        w == gutter_width(d.evs),
        w <= 20,
        at.0 == old_index(d.evs, i as int),
        at.1 == new_index(d.evs, i as int),
        old_index(d.evs, i + 1) <= old_spans@.len(),
        new_index(d.evs, i + 1) <= new_spans@.len(),
        range_view(range) == word_range(d.evs, i as int),
        shows(*old(out), d, us),
    ensures
        shows(*final(out), d, us.push(Unit::Event(i as int))),
        r.0 == old_index(d.evs, i + 1),
        r.1 == new_index(d.evs, i + 1),
{
    proof {
        lemma_index_step(d.evs, i as int);
        assert(d.evs[i as int] == evs@[i as int]@);
    }
    let old_row = row_at(old_spans, at.0);
    let new_row = row_at(new_spans, at.1);
    let line = event_row(evs, i, w, old_row, new_row, range, Ghost(d));
    push_event(out, evs, i, line, Ghost(d), Ghost(us));
    let total_old = old_spans.len();
    let total_new = new_spans.len();
    match &evs[i] {
        Ev::Ctx(_, _, _) => (at.0 + 1, at.1 + 1),
        Ev::Del(_, _) => (at.0 + 1, at.1),
        Ev::Add(_, _) => (at.0, at.1 + 1),
        _ => at,
    }
}

/// Puts the rows of a diff together from its events and its highlighted lines:
/// those of the old file for context and deletions, those of the new file for
/// context and additions.
pub fn assemble(
    evs: &Vec<Ev>,
    old_spans: &Vec<Vec<Span>>,
    new_spans: &Vec<Vec<Span>>,
    expanded: &Vec<FoldId>,
    hide_unmodified: bool,
) -> (r: RenderedDiff)
    requires
        old_spans@.len() == old_index(evs_view(evs@), evs@.len() as int),
        new_spans@.len() == new_index(evs_view(evs@), evs@.len() as int),
    ensures
        ({
            let d = diff_parts(evs@, old_spans@, new_spans@, expanded@, hide_unmodified);
            shows(r, d, units(d, 0))
        }),
{
    let ghost d = diff_parts(evs@, old_spans@, new_spans@, expanded@, hide_unmodified);
    let w = read_width(evs);
    let ranges = word_ranges(evs);
    let folds = fold_ranges(evs);
    let mut out = RenderedDiff {
        lines: Vec::new(),
        folds: Vec::new(),
        first_change: None,
        sources: Vec::new(),
        hidden_search_sources: Vec::new(),
    };
    let ghost mut us: Seq<Unit> = Seq::empty();
    assert(lines_view(out.lines@) =~= us.map_values(|u: Unit| unit_line(d, u)));
    assert(out.folds@ =~= us.map_values(|u: Unit| unit_fold(u)));
    assert(sources_view(out.sources@) =~= us.map_values(|u: Unit| unit_source(d, u)));
    assert(search_sources(out.hidden_search_sources@) =~= hidden_sources(d, us));
    let mut i: usize = 0;
    let mut at: (usize, usize) = (0, 0);
    let total_old = old_spans.len();
    let total_new = new_spans.len();
    let mut fold_i: usize = 0;
    let total = evs.len();
    assert(us + units(d, 0) =~= units(d, 0));
    while i < total
        invariant
            total == evs@.len(),
            i <= total,
            d == diff_parts(evs@, old_spans@, new_spans@, expanded@, hide_unmodified),
            w == gutter_width(d.evs),
            w <= 20,
            ranges@.len() == total,
            forall|k: int| 0 <= k < total ==> range_view(#[trigger] ranges@[k]) == word_range(d.evs, k),
            folds@ == folds_before(d.evs, total as int),
            old_spans@.len() == old_index(d.evs, total as int),
            new_spans@.len() == new_index(d.evs, total as int),
            at.0 == old_index(d.evs, i as int),
            at.1 == new_index(d.evs, i as int),
            total_old == old_spans@.len(),
            total_new == new_spans@.len(),
            fold_i == folds_count(d.evs, i as int),
            fold_i <= folds@.len(),
            us.len() <= i,
            shows(out, d, us),
            us + units(d, i as int) == units(d, 0),
        decreases total - i,
    {
        proof {
            lemma_fold_lookup(d.evs, i as int);
            lemma_index_grows(d.evs, i + 1, total as int);
        }
        if fold_i < folds.len() && folds[fold_i].start == i {
            let f = folds[fold_i];
            assert(fold_at(d.evs, i as int) == Some(f));
            if hide_unmodified && !holds_fold(expanded, f.id) {
                proof {
                    lemma_units_fold(d, i as int, us, f);
                    lemma_index_grows(d.evs, f.end as int, total as int);
                    lemma_folds_prefix(d.evs, f.end as int, total as int);
                }
                push_fold(&mut out, evs, f, w, Ghost(d), Ghost(us));
                proof {
                    us = us.push(Unit::Fold(f));
                }
                at = (at.0 + (f.end - f.start), at.1 + (f.end - f.start));
                fold_i += 1;
                i = f.end;
                continue;
            }
            fold_i += 1;
        } else {
            assert(fold_at(d.evs, i as int) is None);
        }
        proof {
            lemma_units_event(d, i as int, us);
            lemma_folds_prefix(d.evs, i + 1, total as int);
        }
        at = push_plain(
            &mut out,
            evs,
            i,
            w,
            old_spans,
            new_spans,
            at,
            ranges[i],
            Ghost(d),
            Ghost(us),
        );
        proof {
            us = us.push(Unit::Event(i as int));
        }
        i += 1;
    }
    assert(us + units(d, i as int) =~= us);
    out
}

/// The lines of the old file among the events.
pub open spec fn old_lines(evs: Seq<EvView>) -> Seq<Seq<char>>
    decreases evs.len(),
{
    if evs.len() == 0 {
        Seq::empty()
    } else if evs.last() is Ctx || evs.last() is Del {
        old_lines(evs.drop_last()).push(ev_text(evs.last()))
    } else {
        old_lines(evs.drop_last())
    }
}

/// The lines of the new file among the events.
pub open spec fn new_lines(evs: Seq<EvView>) -> Seq<Seq<char>>
    decreases evs.len(),
{
    if evs.len() == 0 {
        Seq::empty()
    } else if evs.last() is Ctx || evs.last() is Add {
        new_lines(evs.drop_last()).push(ev_text(evs.last()))
    } else {
        new_lines(evs.drop_last())
    }
}

proof fn lemma_side_lengths(evs: Seq<EvView>, n: int)
    requires
        0 <= n <= evs.len(),
    ensures
        old_lines(evs.take(n)).len() == old_index(evs, n),
        new_lines(evs.take(n)).len() == new_index(evs, n),
    decreases n,
{
    if n > 0 {
        lemma_side_lengths(evs, n - 1);
        assert(evs.take(n).drop_last() =~= evs.take(n - 1));
    }
}

fn read_sides(evs: &Vec<Ev>) -> (r: (Vec<String>, Vec<String>))
    ensures
        texts(r.0@) == old_lines(evs_view(evs@)),
        texts(r.1@) == new_lines(evs_view(evs@)),
{
    let mut olds: Vec<String> = Vec::new();
    let mut news: Vec<String> = Vec::new();
    let ghost all = evs_view(evs@);
    let mut i: usize = 0;
    assert(all.take(0) =~= Seq::empty());
    assert(texts(olds@) =~= Seq::empty());
    assert(texts(news@) =~= Seq::empty());
    while i < evs.len()
        invariant
            i <= evs@.len(),
            all == evs_view(evs@),
            texts(olds@) == old_lines(all.take(i as int)),
            texts(news@) == new_lines(all.take(i as int)),
        decreases evs@.len() - i,
    {
        proof {
            assert(all.take(i + 1).drop_last() =~= all.take(i as int));
            assert(all.take(i + 1).last() == evs@[i as int]@);
        }
        let ghost o = olds@;
        let ghost n = news@;
        match &evs[i] {
            Ev::Ctx(_, _, t) => {
                olds.push(t.clone());
                news.push(t.clone());
                assert(texts(olds@) =~= texts(o).push(t@));
                assert(texts(news@) =~= texts(n).push(t@));
            },
            Ev::Del(_, t) => {
                olds.push(t.clone());
                assert(texts(olds@) =~= texts(o).push(t@));
            },
            Ev::Add(_, t) => {
                news.push(t.clone());
                assert(texts(news@) =~= texts(n).push(t@));
            },
            _ => {},
        }
        i += 1;
    }
    assert(all.take(i as int) =~= all);
    (olds, news)
}

/// What the rows of a diff of the file `rel` are made from. Each side of the
/// diff is highlighted from its first to its last line, whether or not a fold
/// hides some of them.
pub open spec fn highlighted_parts(
    rel: Seq<char>,
    diff: Seq<char>,
    theme: usize,
    expanded: Seq<FoldId>,
    hide: bool,
) -> DiffParts {
    let evs = diff_events(diff);
    DiffParts {
        evs,
        old_spans: highlighted_rows(grammar_for(rel, None), theme, old_lines(evs), false),
        new_spans: highlighted_rows(grammar_for(rel, None), theme, new_lines(evs), false),
        expanded,
        hide,
    }
}

/// Renders a diff of the file `rel` (whose extension picks the grammar), with
/// the given context folds expanded.
pub fn render_expanded(
    g: &Grammars,
    rel: &str,
    diff: &str,
    theme: usize,
    expanded: &Vec<FoldId>,
    hide_unmodified: bool,
) -> (r: RenderedDiff)
    ensures
        ({
            let d = highlighted_parts(rel@, diff@, theme, expanded@, hide_unmodified);
            shows(r, d, units(d, 0))
        }),
{
    let evs = parse_events(diff);
    let (olds, news) = read_sides(&evs);
    let old_spans = highlight_side(g, rel, theme, &olds);
    let new_spans = highlight_side(g, rel, theme, &news);
    proof {
        let all = evs_view(evs@);
        assert(all.take(all.len() as int) =~= all);
        lemma_side_lengths(all, all.len() as int);
        assert(rows_of_spans(old_spans@).len() == old_spans@.len());
        assert(rows_of_spans(new_spans@).len() == new_spans@.len());
    }
    let r = assemble(&evs, &old_spans, &new_spans, expanded, hide_unmodified);
    assert(diff_parts(evs@, old_spans@, new_spans@, expanded@, hide_unmodified)
        =~= highlighted_parts(rel@, diff@, theme, expanded@, hide_unmodified));
    r
}

/// Renders a diff with all its context folds collapsed.
pub fn render(g: &Grammars, rel: &str, diff: &str, theme: usize) -> (r: Vec<Line>)
    ensures
        ({
            let d = highlighted_parts(rel@, diff@, theme, Seq::empty(), true);
            lines_view(r@) == units(d, 0).map_values(|u: Unit| unit_line(d, u))
        }),
{
    let none: Vec<FoldId> = Vec::new();
    assert(none@ =~= Seq::empty());
    render_expanded(g, rel, diff, theme, &none, true).lines
}

// ---- What holds of the rows ----

/// The events that the rows stand for.
pub open spec fn covered(us: Seq<Unit>) -> Seq<int>
    decreases us.len(),
{
    if us.len() == 0 {
        Seq::empty()
    } else {
        covered_by(us[0]) + covered(us.subrange(1, us.len() as int))
    }
}

pub open spec fn covered_by(u: Unit) -> Seq<int> {
    match u {
        Unit::Fold(f) => Seq::new((f.end - f.start) as nat, |k: int| f.start + k),
        Unit::Event(i) => seq![i],
    }
}

/// Every event has its place in exactly one row, in order: its own, or that of
/// the fold it is in.
pub proof fn law_rows_cover_every_event(d: DiffParts, i: int)
    requires
        0 <= i <= d.evs.len() <= usize::MAX,
    ensures
        covered(units(d, i)) == Seq::new((d.evs.len() - i) as nat, |k: int| i + k),
    decreases d.evs.len() - i,
{
    let want = Seq::new((d.evs.len() - i) as nat, |k: int| i + k);
    if i == d.evs.len() {
        assert(covered(units(d, i)) =~= want);
    } else {
        let us = units(d, i);
        let rest = us.subrange(1, us.len() as int);
        lemma_far_end(d.evs, i);
        match fold_at(d.evs, i) {
            Some(f) if d.hide && !d.expanded.contains(f.id) => {
                let e = far_end(d.evs, i);
                assert(rest =~= units(d, e));
                law_rows_cover_every_event(d, e);
                assert(covered(us) =~= want);
            },
            _ => {
                assert(rest =~= units(d, i + 1));
                law_rows_cover_every_event(d, i + 1);
                assert(covered(us) =~= want);
            },
        }
    }
}

/// Without folding every event has its own row.
pub proof fn law_unfolded_rows_are_the_events(d: DiffParts, i: int)
    requires
        0 <= i <= d.evs.len(),
        !d.hide,
    ensures
        units(d, i) == Seq::new((d.evs.len() - i) as nat, |k: int| Unit::Event(i + k)),
    decreases d.evs.len() - i,
{
    let want = Seq::new((d.evs.len() - i) as nat, |k: int| Unit::Event(i + k));
    if i < d.evs.len() {
        law_unfolded_rows_are_the_events(d, i + 1);
    }
    assert(units(d, i) =~= want);
}

/// The diff with one fold more expanded.
pub open spec fn with_expanded(d: DiffParts, id: FoldId) -> DiffParts {
    DiffParts { expanded: d.expanded.push(id), ..d }
}

/// Whether the fold `id` has no row, but that at `row`.
pub open spec fn only_fold_at(us: Seq<Unit>, id: FoldId, row: int) -> bool {
    forall|r: int| 0 <= r < us.len() && r != row ==> unit_fold(#[trigger] us[r]) != Some(id)
}

/// The rows of the lines behind a fold.
pub open spec fn fold_events(f: FoldRange) -> Seq<Unit> {
    Seq::new((f.end - f.start) as nat, |k: int| Unit::Event(f.start + k))
}

proof fn lemma_expanded_holds(d: DiffParts, id: FoldId)
    ensures
        forall|x: FoldId| #[trigger]
            with_expanded(d, id).expanded.contains(x) <==> d.expanded.contains(x) || x == id,
{
    let all = d.expanded.push(id);
    assert forall|x: FoldId| #[trigger] all.contains(x) <==> d.expanded.contains(x) || x == id by {
        if d.expanded.contains(x) {
            let k = choose|k: int| 0 <= k < d.expanded.len() && d.expanded[k] == x;
            assert(all[k] == x);
        }
        if x == id {
            assert(all[d.expanded.len() as int] == x);
        }
        if all.contains(x) && x != id {
            let k = choose|k: int| 0 <= k < all.len() && all[k] == x;
            assert(d.expanded[k] == x);
        }
    }
}

/// Where a fold has no row, expanding it changes nothing.
proof fn lemma_rows_without(d: DiffParts, id: FoldId, i: int)
    requires
        0 <= i <= d.evs.len(),
        only_fold_at(units(d, i), id, -1),
    ensures
        units(with_expanded(d, id), i) == units(d, i),
    decreases d.evs.len() - i,
{
    let e = with_expanded(d, id);
    if i < d.evs.len() {
        lemma_expanded_holds(d, id);
        lemma_far_end(d.evs, i);
        let us = units(d, i);
        assert(unit_fold(us[0]) != Some(id));
        let next = match fold_at(d.evs, i) {
            Some(f) if d.hide && !d.expanded.contains(f.id) => far_end(d.evs, i),
            _ => i + 1,
        };
        assert(us.skip(1) =~= units(d, next));
        assert forall|r: int| 0 <= r < units(d, next).len() implies unit_fold(
            #[trigger] units(d, next)[r],
        ) != Some(id) by {
            assert(us[r + 1] == units(d, next)[r]);
        }
        lemma_rows_without(d, id, next);
    }
}

/// From within a run of lines near no change, every line has its own row.
proof fn lemma_rows_of_run(e: DiffParts, k: int, end: int)
    requires
        0 < k <= end <= e.evs.len(),
        forall|j: int| k - 1 <= j < end ==> !near_change(e.evs, j),
    ensures
        units(e, k) == Seq::new((end - k) as nat, |j: int| Unit::Event(k + j)) + units(e, end),
    decreases end - k,
{
    let want = Seq::new((end - k) as nat, |j: int| Unit::Event(k + j));
    if k < end {
        assert(!near_change(e.evs, k - 1));
        assert(fold_at(e.evs, k) is None);
        lemma_rows_of_run(e, k + 1, end);
        let rest = Seq::new((end - k - 1) as nat, |j: int| Unit::Event(k + 1 + j));
        assert(want =~= seq![Unit::Event(k)] + rest);
        assert(units(e, k) =~= want + units(e, end));
    } else {
        assert(units(e, k) =~= want + units(e, end));
    }
}

proof fn lemma_row_expands(d: DiffParts, f: FoldRange, i: int, row: int)
    requires
        0 <= i <= d.evs.len() <= usize::MAX,
        0 <= row < units(d, i).len(),
        units(d, i)[row] == Unit::Fold(f),
        only_fold_at(units(d, i), f.id, row),
    ensures
        units(with_expanded(d, f.id), i) == units(d, i).take(row) + fold_events(f) + units(
            d,
            i,
        ).skip(row + 1),
    decreases d.evs.len() - i,
{
    let e = with_expanded(d, f.id);
    let us = units(d, i);
    lemma_expanded_holds(d, f.id);
    lemma_far_end(d.evs, i);
    let next = match fold_at(d.evs, i) {
        Some(g) if d.hide && !d.expanded.contains(g.id) => far_end(d.evs, i),
        _ => i + 1,
    };
    let rest = units(d, next);
    assert(us.skip(1) =~= rest);
    assert forall|r: int| 0 <= r < rest.len() && r != row - 1 implies unit_fold(
        #[trigger] rest[r],
    ) != Some(f.id) by {
        assert(us[r + 1] == rest[r]);
    }
    if row == 0 {
        let end = far_end(d.evs, i);
        assert(fold_at(d.evs, i) == Some(f));
        assert(next == end);
        lemma_rows_without(d, f.id, end);
        lemma_rows_of_run(e, i + 1, end);
        assert(units(e, i) == seq![Unit::Event(i)] + units(e, i + 1));
        assert(fold_events(f) =~= seq![Unit::Event(i)] + Seq::new(
            (end - i - 1) as nat,
            |j: int| Unit::Event(i + 1 + j),
        ));
        assert(units(e, i) =~= us.take(row) + fold_events(f) + us.skip(row + 1));
    } else {
        assert(us[row] == rest[row - 1]);
        lemma_row_expands(d, f, next, row - 1);
        assert(unit_fold(us[0]) != Some(f.id));
        assert(units(e, i) =~= seq![us[0]] + units(e, next));
        assert(us.take(row) =~= seq![us[0]] + rest.take(row - 1));
        assert(us.skip(row + 1) =~= rest.skip(row));
        assert(units(e, i) =~= us.take(row) + fold_events(f) + us.skip(row + 1));
    }
}

proof fn lemma_hidden_of(d: DiffParts, us: Seq<Unit>, f: FoldRange, row: int)
    requires
        row < us.len() ==> row >= 0 && us[row] == Unit::Fold(f),
        only_fold_at(us, f.id, row),
    ensures
        hidden_sources(d, us).filter(|s: SearchSourceView| s.fold == Some(f.id)) == (if row
            < us.len() {
            fold_sources(d, f, row)
        } else {
            Seq::empty()
        }),
    decreases us.len(),
{
    let of_f = |s: SearchSourceView| s.fold == Some(f.id);
    if us.len() == 0 {
        assert(hidden_sources(d, us).filter(of_f) =~= Seq::empty()) by {
            reveal(Seq::filter);
        }
    } else {
        let w = us.drop_last();
        assert forall|r: int| 0 <= r < w.len() && r != row implies unit_fold(#[trigger] w[r])
            != Some(f.id) by {
            assert(us[r] == w[r]);
        }
        lemma_hidden_of(d, w, f, row);
        let before = hidden_sources(d, w);
        match us.last() {
            Unit::Fold(g) => {
                let own = fold_sources(d, g, us.len() - 1);
                Seq::filter_distributes_over_add(before, own, of_f);
                if row == us.len() - 1 {
                    assert(us[row] == us.last());
                    lemma_filter_all(own, of_f);
                    assert(Seq::<SearchSourceView>::empty() + own =~= own);
                } else {
                    assert(unit_fold(us[us.len() - 1]) != Some(f.id));
                    lemma_filter_none(own, of_f);
                    assert(before.filter(of_f) + Seq::empty() =~= before.filter(of_f));
                }
            },
            Unit::Event(_) => {},
        }
    }
}

proof fn lemma_filter_all(s: Seq<SearchSourceView>, keep: spec_fn(SearchSourceView) -> bool)
    requires
        forall|k: int| 0 <= k < s.len() ==> keep(#[trigger] s[k]),
    ensures
        s.filter(keep) == s,
    decreases s.len(),
{
    reveal(Seq::filter);
    if s.len() > 0 {
        lemma_filter_all(s.drop_last(), keep);
        assert(keep(s[s.len() - 1]));
        assert(s.drop_last().push(s.last()) =~= s);
    } else {
        assert(s.filter(keep) =~= s);
    }
}

proof fn lemma_filter_none(s: Seq<SearchSourceView>, keep: spec_fn(SearchSourceView) -> bool)
    requires
        forall|k: int| 0 <= k < s.len() ==> !keep(#[trigger] s[k]),
    ensures
        s.filter(keep) == Seq::<SearchSourceView>::empty(),
    decreases s.len(),
{
    reveal(Seq::filter);
    if s.len() > 0 {
        lemma_filter_none(s.drop_last(), keep);
        assert(!keep(s[s.len() - 1]));
    } else {
        assert(s.filter(keep) =~= Seq::empty());
    }
}

/// Expanding a fold that has one row puts exactly the lines behind it in the place of
/// that row, in order, and leaves every other row as it was: what was folded besides
/// stays folded. The lines behind it are those that the collapsed diff lists as hidden
/// by the fold.
pub proof fn law_expanding_replaces_one_row(d: DiffParts, f: FoldRange, row: int)
    requires
        d.evs.len() <= usize::MAX,
        0 <= row < units(d, 0).len(),
        units(d, 0)[row] == Unit::Fold(f),
        only_fold_at(units(d, 0), f.id, row),
    ensures
        ({
            let e = with_expanded(d, f.id);
            let us = units(d, 0);
            let hidden = hidden_sources(d, us).filter(
                |s: SearchSourceView| s.fold == Some(f.id),
            );
            &&& units(e, 0) == us.take(row) + fold_events(f) + us.skip(row + 1)
            &&& units(e, 0).len() == us.len() + hidden.len() - 1
            &&& forall|u: Unit| unit_line(e, u) == #[trigger] unit_line(d, u)
            &&& forall|u: Unit| unit_source(e, u) == #[trigger] unit_source(d, u)
            &&& hidden.len() == fold_events(f).len()
            &&& forall|k: int|
                0 <= k < hidden.len() ==> unit_source(d, #[trigger] fold_events(f)[k]) == Some(
                    hidden[k].source,
                )
        }),
{
    let us = units(d, 0);
    let e = with_expanded(d, f.id);
    lemma_row_expands(d, f, 0, row);
    lemma_hidden_of(d, us, f, row);
    lemma_fold_is_one(d, 0, row, f);
    assert forall|u: Unit| unit_line(e, u) == #[trigger] unit_line(d, u) by {
        if let Unit::Event(i) = u {
            assert(event_line(e, i) == event_line(d, i));
        }
    }
    assert forall|k: int| 0 <= k < f.end - f.start implies unit_source(
        d,
        #[trigger] fold_events(f)[k],
    ) == Some(fold_sources(d, f, row)[k].source) by {
        lemma_far_is_ctx(d.evs, f.start + k);
    }
}

/// A row that stands for a fold stands for one of the folds.
proof fn lemma_fold_is_one(d: DiffParts, i: int, row: int, f: FoldRange)
    requires
        0 <= i <= d.evs.len() <= usize::MAX,
        0 <= row < units(d, i).len(),
        units(d, i)[row] == Unit::Fold(f),
    ensures
        f.start < f.end <= d.evs.len(),
        forall|k: int| f.start <= k < f.end ==> !near_change(d.evs, k),
    decreases d.evs.len() - i,
{
    lemma_far_end(d.evs, i);
    let us = units(d, i);
    let next = match fold_at(d.evs, i) {
        Some(g) if d.hide && !d.expanded.contains(g.id) => far_end(d.evs, i),
        _ => i + 1,
    };
    assert(us.skip(1) =~= units(d, next));
    if row > 0 {
        assert(us[row] == units(d, next)[row - 1]);
        lemma_fold_is_one(d, next, row - 1, f);
    }
}

/// No change is ever inside a fold.
pub proof fn law_folds_hide_only_context(evs: Seq<EvView>, i: int, k: int)
    requires
        fold_at(evs, i) is Some,
        evs.len() <= usize::MAX,
        fold_at(evs, i)->0.start <= k < fold_at(evs, i)->0.end,
    ensures
        0 <= k < evs.len(),
        evs[k] is Ctx,
        !near_change(evs, k),
{
    lemma_far_end(evs, i);
    lemma_far_is_ctx(evs, k);
}

} // verus!
