//! Comments on what is selected: writing, keeping, and handing them on.

use vstd::prelude::*;

use crate::bytes::{byte_len, char_at_byte, char_index, lemma_char_found};
use crate::cells::{clusters, concat, graphemes, lemma_concat_push, lemma_concat_take};
use crate::input::{only_command, only_control, Key, KeyCode, Platform};
use crate::scan::{digits, digits_of, trim, trimmed, utf8_len, Class};
use crate::text::{
    chars_of, eq_text, find, find_char, find_seq, find_text, join, lemma_join_push,
    lemma_rfind_char, opt_text, push_all, push_text, rfind, rfind_char, slice_of, text_of,
    text_slice, texts,
};
use crate::viewer::doc::{ExportView, SelectionExport};
use crate::viewer::request::{
    opt_str, request_path, same_file, same_preview_file, shown_path, Request, RequestView,
};
use crate::viewer::rows::TextSelection;

verus! {

/// What a comment is about.
pub struct PendingComment {
    pub location: String,
    pub snippet: String,
    pub removed: bool,
    pub document: Request,
    pub range: TextSelection,
}

#[verifier::ext_equal]
pub struct PendingView {
    pub location: Seq<char>,
    pub snippet: Seq<char>,
    pub removed: bool,
    pub document: RequestView,
    pub range: TextSelection,
}

impl View for PendingComment {
    type V = PendingView;

    open spec fn view(&self) -> PendingView {
        PendingView {
            location: self.location@,
            snippet: self.snippet@,
            removed: self.removed,
            document: self.document@,
            range: self.range,
        }
    }
}

/// A comment that was written.
pub struct SavedComment {
    pub pending: PendingComment,
    pub body: String,
}

#[verifier::ext_equal]
pub struct SavedView {
    pub pending: PendingView,
    pub body: Seq<char>,
}

impl View for SavedComment {
    type V = SavedView;

    open spec fn view(&self) -> SavedView {
        SavedView { pending: self.pending@, body: self.body@ }
    }
}

pub open spec fn saved_view(v: Seq<SavedComment>) -> Seq<SavedView> {
    v.map_values(|c: SavedComment| c@)
}

/// What a comment on a selection is about.
pub open spec fn pending_of(
    request: RequestView,
    selection: ExportView,
    cwd: Option<Seq<char>>,
) -> Option<PendingView> {
    match shown_path(request, cwd) {
        None => None,
        Some(path) => Some(
            PendingView {
                location: path + ":"@ + digits(selection.start_line as nat) + ":"@ + digits(
                    selection.start_column as nat,
                ) + "-"@ + digits(selection.end_line as nat) + ":"@ + digits(
                    selection.end_column as nat,
                ),
                snippet: selection.snippet,
                removed: selection.removed,
                document: request,
                range: selection.range,
            },
        ),
    }
}

pub open spec fn pending_view(p: Option<PendingComment>) -> Option<PendingView> {
    match p {
        Some(p) => Some(p@),
        None => None,
    }
}

/// What a comment on a selection is about; nothing for what has no path.
pub fn pending_comment(request: &Request, selection: SelectionExport, cwd: Option<&str>) -> (r:
    Option<PendingComment>)
    ensures
        pending_view(r) == pending_of(request@, selection@, opt_str(cwd)),
{
    match request_path(request, cwd) {
        None => None,
        Some(path) => {
            let mut v = chars_of(path.as_str());
            push_text(&mut v, ":");
            push_all(&mut v, &digits_of(selection.start_line));
            push_text(&mut v, ":");
            push_all(&mut v, &digits_of(selection.start_column));
            push_text(&mut v, "-");
            push_all(&mut v, &digits_of(selection.end_line));
            push_text(&mut v, ":");
            push_all(&mut v, &digits_of(selection.end_column));
            Some(
                PendingComment {
                    location: text_of(&v),
                    snippet: selection.snippet,
                    removed: selection.removed,
                    document: request.clone(),
                    range: selection.range,
                },
            )
        },
    }
}

/// The comments that are not about the request's file.
pub open spec fn without_file(comments: Seq<SavedView>, request: RequestView) -> Seq<SavedView>
    decreases comments.len(),
{
    if comments.len() == 0 {
        Seq::empty()
    } else {
        let before = without_file(comments.drop_last(), request);
        if same_file(comments.last().pending.document, request) {
            before
        } else {
            before.push(comments.last())
        }
    }
}

/// How many comments are about the request's file.
pub open spec fn count_for(comments: Seq<SavedView>, request: RequestView) -> nat
    decreases comments.len(),
{
    if comments.len() == 0 {
        0
    } else {
        count_for(comments.drop_last(), request) + if same_file(
            comments.last().pending.document,
            request,
        ) {
            1nat
        } else {
            0nat
        }
    }
}

/// Each comment is about the file or stays.
pub proof fn law_comments_are_cleared_by_file(comments: Seq<SavedView>, request: RequestView)
    ensures
        without_file(comments, request).len() + count_for(comments, request) == comments.len(),
        count_for(without_file(comments, request), request) == 0,
        forall|k: int|
            0 <= k < comments.len() && !same_file(
                (#[trigger] comments[k]).pending.document,
                request,
            ) ==> without_file(comments, request).contains(comments[k]),
    decreases comments.len(),
{
    if comments.len() > 0 {
        let head = comments.drop_last();
        law_comments_are_cleared_by_file(head, request);
        let kept = without_file(head, request);
        let all = without_file(comments, request);
        if !same_file(comments.last().pending.document, request) {
            assert(all.drop_last() =~= kept);
            assert(all.last() == comments.last());
        }
        assert forall|k: int|
            0 <= k < comments.len() && !same_file(
                (#[trigger] comments[k]).pending.document,
                request,
            ) implies all.contains(comments[k]) by {
            if k < head.len() {
                assert(head[k] == comments[k]);
                assert(kept.contains(comments[k]));
                let j = choose|j: int| 0 <= j < kept.len() && kept[j] == comments[k];
                assert(all[j] == comments[k]);
            } else {
                assert(all[all.len() - 1] == comments[k]);
            }
        }
    }
}

/// Drops the comments on the request's file; how many there were.
pub fn remove_comments_for_file(comments: &mut Vec<SavedComment>, request: &Request) -> (r: usize)
    ensures
        saved_view(final(comments)@) == without_file(saved_view(old(comments)@), request@),
        r == count_for(saved_view(old(comments)@), request@),
{
    let ghost all = saved_view(comments@);
    let mut rest: Vec<SavedComment> = Vec::new();
    std::mem::swap(comments, &mut rest);
    let n = rest.len();
    assert(all.len() == n);
    let mut kept: Vec<SavedComment> = Vec::new();
    let mut dropped: usize = 0;
    let mut i: usize = 0;
    assert(saved_view(kept@) =~= Seq::empty());
    assert(all.take(0) =~= Seq::empty());
    assert(all.skip(0) =~= all);
    while i < n
        invariant
            i <= n,
            n == all.len(),
            saved_view(rest@) == all.skip(i as int),
            saved_view(kept@) == without_file(all.take(i as int), request@),
            dropped == count_for(all.take(i as int), request@),
            dropped <= i,
        decreases n - i,
    {
        assert(rest@.len() == saved_view(rest@).len());
        let ghost before = rest@;
        let comment = rest.remove(0);
        proof {
            assert(saved_view(before)[0] == before[0]@);
            assert(comment@ == all[i as int]);
            assert(saved_view(rest@) =~= saved_view(before).skip(1));
            assert(all.skip(i as int).skip(1) =~= all.skip(i + 1));
            assert(all.take(i + 1).drop_last() =~= all.take(i as int));
            assert(all.take(i + 1).last() == all[i as int]);
        }
        if same_preview_file(&comment.pending.document, request) {
            dropped += 1;
        } else {
            let ghost was = saved_view(kept@);
            kept.push(comment);
            assert(saved_view(kept@) =~= was.push(comment@));
        }
        i += 1;
    }
    assert(all.take(n as int) =~= all);
    *comments = kept;
    dropped
}

/// How many comments are about the request's file.
pub fn comments_on(comments: &Vec<SavedComment>, request: &Request) -> (r: usize)
    ensures
        r == count_for(saved_view(comments@), request@),
{
    let ghost all = saved_view(comments@);
    let mut count: usize = 0;
    let mut i: usize = 0;
    assert(all.take(0) =~= Seq::empty());
    while i < comments.len()
        invariant
            i <= comments@.len(),
            all == saved_view(comments@),
            count == count_for(all.take(i as int), request@),
            count <= i,
        decreases comments@.len() - i,
    {
        assert(all.take(i + 1).drop_last() =~= all.take(i as int));
        assert(all.take(i + 1).last() == comments@[i as int]@);
        if same_preview_file(&comments[i].pending.document, request) {
            count += 1;
        }
        i += 1;
    }
    assert(all.take(i as int) =~= all);
    count
}

// ---- Comments as text ----

/// `s` with a backslash before each backtick.
pub open spec fn escaped(s: Seq<char>) -> Seq<char>
    decreases s.len(),
{
    if s.len() == 0 {
        Seq::empty()
    } else if s.last() == '`' {
        escaped(s.drop_last()) + "\\`"@
    } else {
        escaped(s.drop_last()).push(s.last())
    }
}

/// How many backticks the first `n` characters end in.
pub open spec fn ticks_at(s: Seq<char>, n: int) -> nat
    decreases n,
{
    if n <= 0 || s[n - 1] != '`' {
        0
    } else {
        ticks_at(s, n - 1) + 1
    }
}

/// The longest run of backticks in the first `n` characters.
pub open spec fn longest_ticks(s: Seq<char>, n: int) -> nat
    decreases n,
{
    if n <= 0 {
        0
    } else if ticks_at(s, n) > longest_ticks(s, n - 1) {
        ticks_at(s, n)
    } else {
        longest_ticks(s, n - 1)
    }
}

/// Backticks that fence a snippet: more than it holds in a row, and three at
/// least.
pub open spec fn fence_of(snippet: Seq<char>) -> Seq<char> {
    let n = longest_ticks(snippet, snippet.len() as int) + 1;
    Seq::new(if n < 3 { 3 } else { n }, |i: int| '`')
}

/// One comment as text: where it is, what it is about, and what it says.
pub open spec fn comment_block(c: SavedView) -> Seq<char> {
    "## `"@ + escaped(c.pending.location) + "`"@ + (if c.pending.removed {
        " (removed)"@
    } else {
        Seq::empty()
    }) + "\n\n"@ + fence_of(c.pending.snippet) + "\n"@ + c.pending.snippet + (if ends_line(
        c.pending.snippet,
    ) {
        Seq::empty()
    } else {
        "\n"@
    }) + fence_of(c.pending.snippet) + "\n\n"@ + trim(c.body, Class::White)
}

pub open spec fn ends_line(s: Seq<char>) -> bool {
    s.len() > 0 && s.last() == '\n'
}

/// The comments as text, a blank line between each two.
pub open spec fn formatted(comments: Seq<SavedView>) -> Seq<char> {
    join(comments.map_values(|c: SavedView| comment_block(c)), "\n\n"@)
}

fn push_escaped(out: &mut Vec<char>, s: &str)
    ensures
        final(out)@ == old(out)@ + escaped(s@),
{
    let v = chars_of(s);
    let mut i: usize = 0;
    assert(v@.take(0) =~= Seq::empty());
    assert(old(out)@ + escaped(v@.take(0)) =~= old(out)@);
    while i < v.len()
        invariant
            i <= v@.len(),
            v@ == s@,
            out@ == old(out)@ + escaped(v@.take(i as int)),
        decreases v@.len() - i,
    {
        assert(v@.take(i + 1).drop_last() =~= v@.take(i as int));
        let c = v[i];
        if c == '`' {
            push_text(out, "\\`");
        } else {
            out.push(c);
        }
        assert(out@ =~= old(out)@ + escaped(v@.take(i + 1)));
        i += 1;
    }
    assert(v@.take(i as int) =~= s@);
}

fn fence(snippet: &str) -> (r: Vec<char>)
    ensures
        r@ == fence_of(snippet@),
{
    let v = chars_of(snippet);
    let mut run: usize = 0;
    let mut longest: usize = 0;
    let mut i: usize = 0;
    while i < v.len()
        invariant
            i <= v@.len(),
            v@ == snippet@,
            run == ticks_at(v@, i as int),
            longest == longest_ticks(v@, i as int),
            run <= i,
            longest <= i,
        decreases v@.len() - i,
    {
        if v[i] == '`' {
            run += 1;
        } else {
            run = 0;
        }
        if run > longest {
            longest = run;
        }
        i += 1;
    }
    let mut out: Vec<char> = Vec::new();
    out.push('`');
    let mut n: usize = 0;
    while n < longest
        invariant
            n <= longest,
            out@ =~= Seq::new((n + 1) as nat, |i: int| '`'),
        decreases longest - n,
    {
        out.push('`');
        n += 1;
    }
    while out.len() < 3
        invariant
            out@ =~= Seq::new(out@.len(), |i: int| '`'),
            out@.len() == longest + 1 || (longest + 1 < out@.len() <= 3),
        decreases 3 - out@.len(),
    {
        out.push('`');
    }
    assert(out@ =~= fence_of(snippet@));
    out
}

fn push_block(out: &mut Vec<char>, c: &SavedComment)
    ensures
        final(out)@ == old(out)@ + comment_block(c@),
{
    let ghost first = out@;
    let f = fence(c.pending.snippet.as_str());
    push_text(out, "## `");
    push_escaped(out, c.pending.location.as_str());
    push_text(out, "`");
    if c.pending.removed {
        push_text(out, " (removed)");
    }
    push_text(out, "\n\n");
    push_all(out, &f);
    push_text(out, "\n");
    push_text(out, c.pending.snippet.as_str());
    let snippet = chars_of(c.pending.snippet.as_str());
    let n = snippet.len();
    if !(n > 0 && snippet[n - 1] == '\n') {
        push_text(out, "\n");
    }
    push_all(out, &f);
    push_text(out, "\n\n");
    let body = chars_of(c.body.as_str());
    let body = trimmed(&body, Class::White);
    push_all(out, &body);
    assert(out@ =~= first + comment_block(c@));
}

/// The comments as text.
pub fn format_comments(comments: &Vec<SavedComment>) -> (r: String)
    ensures
        r@ == formatted(saved_view(comments@)),
{
    let ghost block = |c: SavedView| comment_block(c);
    let ghost all = saved_view(comments@);
    let mut out: Vec<char> = Vec::new();
    let mut i: usize = 0;
    assert(all.take(0).map_values(block) =~= Seq::empty());
    while i < comments.len()
        invariant
            i <= comments@.len(),
            block == |c: SavedView| comment_block(c),
            all == saved_view(comments@),
            out@ == join(all.take(i as int).map_values(block), "\n\n"@),
        decreases comments@.len() - i,
    {
        let ghost blocks = all.take(i as int).map_values(block);
        let ghost before = out@;
        if i > 0 {
            push_text(&mut out, "\n\n");
        }
        push_block(&mut out, &comments[i]);
        proof {
            assert(all[i as int] == comments@[i as int]@);
            lemma_join_push(blocks, "\n\n"@, comment_block(all[i as int]));
            assert(all.take(i + 1).map_values(block) =~= blocks.push(
                comment_block(all[i as int]),
            ));
            assert(blocks.len() == i);
            if i == 0 {
                assert(before =~= Seq::empty());
                assert(out@ =~= comment_block(all[0]));
            } else {
                assert(out@ =~= before + "\n\n"@ + comment_block(all[i as int]));
            }
        }
        i += 1;
    }
    assert(all.take(i as int) =~= all);
    text_of(&out)
}

/// Hands the comments on, as text, and drops them where that succeeds; how
/// many there were.
pub fn export_comments_with<F: FnOnce(&str) -> Result<(), String>>(
    comments: &mut Vec<SavedComment>,
    export: F,
) -> (r: Result<usize, String>)
    requires
        forall|text: &str| #[trigger] call_requires(export, (text,)),
    ensures
        exists|text: &str, outcome: Result<(), String>|
            text@ == formatted(saved_view(old(comments)@)) && #[trigger] call_ensures(
                export,
                (text,),
                outcome,
            ) && handed_on(outcome, r, old(comments)@, final(comments)@),
{
    let text = format_comments(comments);
    let text = text.as_str();
    let ghost f = export;
    let outcome = export(text);
    assert(call_ensures(f, (text,), outcome));
    let ghost told = outcome;
    match outcome {
        Ok(()) => {
            let count = comments.len();
            comments.clear();
            assert(handed_on(told, Ok(count), old(comments)@, comments@));
            Ok(count)
        },
        Err(e) => Err(e),
    }
}

/// What is left of the comments, and what is reported, after an attempt to hand
/// them on: a failure keeps them.
pub open spec fn handed_on(
    outcome: Result<(), String>,
    r: Result<usize, String>,
    before: Seq<SavedComment>,
    after: Seq<SavedComment>,
) -> bool {
    match outcome {
        Ok(_) => r matches Ok(count) && count == before.len() && after.len() == 0,
        Err(e) => r == Err::<usize, String>(e) && after == before,
    }
}

// ---- Writing a comment ----

/// A comment that is being written. The caret is a place between characters,
/// counted in bytes.
pub struct CommentDraft {
    pub pending: PendingComment,
    pub input: String,
    pub caret: usize,
}

#[verifier::ext_equal]
pub struct DraftView {
    pub pending: PendingView,
    pub input: Seq<char>,
    /// How many characters come before the caret.
    pub at: Option<int>,
}

impl View for CommentDraft {
    type V = DraftView;

    open spec fn view(&self) -> DraftView {
        DraftView {
            pending: self.pending@,
            input: self.input@,
            at: char_at_byte(self.input@, self.caret as int),
        }
    }
}

/// `s` from `i` on with each line end as a line feed.
pub open spec fn unified(s: Seq<char>, i: int) -> Seq<char>
    decreases s.len() - i,
{
    if i >= s.len() {
        Seq::empty()
    } else if s[i] == '\r' {
        if i + 1 < s.len() && s[i + 1] == '\n' {
            seq!['\n'] + unified(s, i + 2)
        } else {
            seq!['\n'] + unified(s, i + 1)
        }
    } else {
        seq![s[i]] + unified(s, i + 1)
    }
}

fn unify(s: &str) -> (r: Vec<char>)
    ensures
        r@ == unified(s@, 0),
{
    let v = chars_of(s);
    let n = v.len();
    let mut out: Vec<char> = Vec::new();
    let mut i: usize = 0;
    while i < n
        invariant
            i <= n,
            n == v@.len(),
            v@ == s@,
            out@ + unified(s@, i as int) =~= unified(s@, 0),
        decreases n - i,
    {
        let c = v[i];
        let ghost before = out@;
        if c == '\r' {
            out.push('\n');
            if n - i > 1 && v[i + 1] == '\n' {
                assert(out@ + unified(s@, i + 2) =~= before + unified(s@, i as int));
                i += 2;
            } else {
                assert(out@ + unified(s@, i + 1) =~= before + unified(s@, i as int));
                i += 1;
            }
        } else {
            out.push(c);
            assert(out@ + unified(s@, i + 1) =~= before + unified(s@, i as int));
            i += 1;
        }
    }
    assert(out@ + unified(s@, i as int) =~= out@);
    out
}

/// The place one grapheme before `at`.
pub open spec fn step_left(s: Seq<char>, at: int) -> int {
    let parts = clusters(s.take(at));
    if parts.len() == 0 {
        at
    } else {
        at - parts.last().len()
    }
}

/// The place one grapheme after `at`.
pub open spec fn step_right(s: Seq<char>, at: int) -> int {
    let parts = clusters(s.skip(at));
    if parts.len() == 0 {
        at
    } else {
        at + parts[0].len()
    }
}

/// Where the line that holds the place `at` begins.
pub open spec fn line_begin(s: Seq<char>, at: int) -> int {
    rfind_char(s, '\n', at) + 1
}

/// The place that many graphemes into `from..to`, or `to` where there are not
/// so many.
pub open spec fn nth_place(s: Seq<char>, from: int, to: int, column: nat) -> int {
    let parts = clusters(s.subrange(from, to));
    if column < parts.len() {
        from + concat(parts.take(column as int)).len()
    } else {
        to
    }
}

/// The place one line above or below `at`, as many graphemes into it.
pub open spec fn vertical(s: Seq<char>, at: int, down: bool) -> int {
    let start = line_begin(s, at);
    let column = clusters(s.subrange(start, at)).len();
    if down {
        let end = find_char(s, '\n', at);
        if end < s.len() {
            nth_place(s, end + 1, find_char(s, '\n', end + 1), column)
        } else {
            at
        }
    } else if start > 0 {
        nth_place(s, line_begin(s, start - 1), start - 1, column)
    } else {
        at
    }
}

/// How many bytes come before a place.
fn byte_at(v: &Vec<char>, at: usize) -> (r: usize)
    requires
        at <= v@.len(),
    ensures
        r == utf8_len(v@.take(at as int)),
        char_at_byte(v@, r as int) == Some(at as int),
{
    let head = text_slice(v, 0, at);
    assert(head@ =~= v@.take(at as int));
    proof {
        lemma_char_found(v@, at as int);
    }
    byte_len(head.as_str())
}

fn left_of(v: &Vec<char>, at: usize) -> (r: usize)
    requires
        at <= v@.len(),
    ensures
        r == step_left(v@, at as int),
        r <= at,
{
    let head = text_slice(v, 0, at);
    assert(head@ =~= v@.take(at as int));
    let parts = graphemes(head.as_str());
    let n = parts.len();
    let ghost all = clusters(v@.take(at as int));
    assert(all.len() == n);
    if n == 0 {
        return at;
    }
    let last = chars_of(parts[n - 1].as_str());
    proof {
        assert(all.last() == parts@[n - 1]@);
        assert(concat(all) == concat(all.drop_last()) + all.last());
    }
    at - last.len()
}

fn right_of(v: &Vec<char>, at: usize) -> (r: usize)
    requires
        at <= v@.len(),
    ensures
        r == step_right(v@, at as int),
        at <= r <= v@.len(),
{
    let total = v.len();
    let tail = text_slice(v, at, total);
    assert(tail@ =~= v@.skip(at as int));
    let parts = graphemes(tail.as_str());
    let ghost all = clusters(v@.skip(at as int));
    assert(all.len() == parts@.len());
    if parts.len() == 0 {
        return at;
    }
    let first = chars_of(parts[0].as_str());
    proof {
        assert(all[0] == parts@[0]@);
        lemma_concat_take(all, 1);
        assert(all.take(1) =~= Seq::<Seq<char>>::empty().push(all[0]));
        lemma_concat_push(Seq::empty(), all[0]);
        assert(concat(Seq::<Seq<char>>::empty()) =~= Seq::empty());
        assert(concat(all.take(1)) =~= all[0]);
    }
    at + first.len()
}

fn count_graphemes(v: &Vec<char>, from: usize, to: usize) -> (r: usize)
    requires
        from <= to <= v@.len(),
    ensures
        r == clusters(v@.subrange(from as int, to as int)).len(),
{
    let part = text_slice(v, from, to);
    let parts = graphemes(part.as_str());
    assert(texts(parts@).len() == parts@.len());
    parts.len()
}

fn nth(v: &Vec<char>, from: usize, to: usize, column: usize) -> (r: usize)
    requires
        from <= to <= v@.len(),
    ensures
        r == nth_place(v@, from as int, to as int, column as nat),
        r <= v@.len(),
{
    let part = text_slice(v, from, to);
    let parts = graphemes(part.as_str());
    let ghost all = clusters(v@.subrange(from as int, to as int));
    assert(all.len() == parts@.len());
    if column >= parts.len() {
        return to;
    }
    let mut sum: usize = 0;
    let mut i: usize = 0;
    assert(concat(all.take(0)) =~= Seq::empty());
    while i < column
        invariant
            i <= column < parts@.len(),
            all == texts(parts@),
            sum == concat(all.take(i as int)).len(),
            concat(all).len() == to - from,
            from <= to,
        decreases column - i,
    {
        let g = chars_of(parts[i].as_str());
        proof {
            assert(all[i as int] == parts@[i as int]@);
            assert(all.take(i + 1) =~= all.take(i as int).push(all[i as int]));
            lemma_concat_push(all.take(i as int), all[i as int]);
            lemma_concat_take(all, i + 1);
        }
        sum += g.len();
        i += 1;
    }
    proof {
        lemma_concat_take(all, column as int);
    }
    from + sum
}

fn begin_of_line(v: &Vec<char>, at: usize) -> (r: usize)
    requires
        at <= v@.len(),
    ensures
        r == line_begin(v@, at as int),
        r <= at,
{
    let head = slice_of(v, 0, at);
    assert(head@ =~= v@.take(at as int));
    proof {
        lemma_rfind_prefix(v@, '\n', at as int, at as int);
        lemma_rfind_char(v@, '\n', at as int);
    }
    match rfind(&head, '\n') {
        Some(i) => {
            i + 1
        },
        None => 0,
    }
}

proof fn lemma_rfind_prefix(s: Seq<char>, c: char, n: int, to: int)
    requires
        0 <= to <= n <= s.len(),
    ensures
        rfind_char(s.take(n), c, to) == rfind_char(s, c, to),
    decreases to,
{
    if to > 0 {
        lemma_rfind_prefix(s, c, n, to - 1);
    }
}

impl CommentDraft {
    /// Whether the caret is a place between characters.
    pub open spec fn placed(&self) -> bool {
        self@.at is Some
    }

    fn place(&self, v: &Vec<char>) -> (r: usize)
        requires
            self.placed(),
            v@ == self.input@,
        ensures
            Some(r as int) == self@.at,
            r <= v@.len(),
    {
        match char_index(v, self.caret) {
            Some(k) => k,
            None => 0,
        }
    }

    /// Writes text at the caret, and moves the caret behind it.
    pub fn insert(&mut self, text: &str)
        requires
            old(self).placed(),
        ensures
            final(self)@ == ({
                let d = old(self)@;
                let t = unified(text@, 0);
                DraftView {
                    pending: d.pending,
                    input: d.input.take(d.at->0) + t + d.input.skip(d.at->0),
                    at: Some(d.at->0 + t.len()),
                }
            }),
    {
        let v = chars_of(self.input.as_str());
        let at = self.place(&v);
        let total = v.len();
        let t = unify(text);
        let mut out = slice_of(&v, 0, at);
        assert(out@ =~= v@.take(at as int));
        push_all(&mut out, &t);
        let end = out.len();
        let rest = slice_of(&v, at, total);
        assert(rest@ =~= v@.skip(at as int));
        push_all(&mut out, &rest);
        assert(out@ =~= v@.take(at as int) + t@ + v@.skip(at as int));
        self.caret = byte_at(&out, end);
        self.input = text_of(&out);
    }

    /// Moves the caret one grapheme to the left.
    pub fn move_left(&mut self)
        requires
            old(self).placed(),
        ensures
            final(self)@ == (DraftView {
                at: Some(step_left(old(self)@.input, old(self)@.at->0)),
                ..old(self)@
            }),
    {
        let v = chars_of(self.input.as_str());
        let at = self.place(&v);
        let to = left_of(&v, at);
        self.caret = byte_at(&v, to);
    }

    /// Moves the caret one grapheme to the right.
    pub fn move_right(&mut self)
        requires
            old(self).placed(),
        ensures
            final(self)@ == (DraftView {
                at: Some(step_right(old(self)@.input, old(self)@.at->0)),
                ..old(self)@
            }),
    {
        let v = chars_of(self.input.as_str());
        let at = self.place(&v);
        let to = right_of(&v, at);
        self.caret = byte_at(&v, to);
    }

    fn cut(&mut self, v: &Vec<char>, from: usize, to: usize)
        requires
            v@ == old(self).input@,
            from <= to <= v@.len(),
        ensures
            final(self)@ == (DraftView {
                pending: old(self)@.pending,
                input: v@.take(from as int) + v@.skip(to as int),
                at: Some(from as int),
            }),
    {
        let total = v.len();
        let mut out = slice_of(v, 0, from);
        assert(out@ =~= v@.take(from as int));
        let rest = slice_of(v, to, total);
        push_all(&mut out, &rest);
        assert(out@ =~= v@.take(from as int) + v@.skip(to as int));
        self.caret = byte_at(&out, from);
        self.input = text_of(&out);
    }

    /// Removes the grapheme before the caret.
    pub fn backspace(&mut self)
        requires
            old(self).placed(),
        ensures
            final(self)@ == ({
                let d = old(self)@;
                let from = step_left(d.input, d.at->0);
                DraftView {
                    pending: d.pending,
                    input: d.input.take(from) + d.input.skip(d.at->0),
                    at: Some(from),
                }
            }),
    {
        let v = chars_of(self.input.as_str());
        let at = self.place(&v);
        let from = left_of(&v, at);
        self.cut(&v, from, at);
    }

    /// Removes the grapheme after the caret.
    pub fn delete(&mut self)
        requires
            old(self).placed(),
        ensures
            final(self)@ == ({
                let d = old(self)@;
                let to = step_right(d.input, d.at->0);
                DraftView {
                    pending: d.pending,
                    input: d.input.take(d.at->0) + d.input.skip(to),
                    at: d.at,
                }
            }),
    {
        let v = chars_of(self.input.as_str());
        let at = self.place(&v);
        let to = right_of(&v, at);
        self.cut(&v, at, to);
    }

    /// The byte at which the caret's line begins.
    pub fn line_start(&self) -> (r: usize)
        requires
            self.placed(),
        ensures
            r == utf8_len(self@.input.take(line_begin(self@.input, self@.at->0))),
            char_at_byte(self@.input, r as int) == Some(line_begin(self@.input, self@.at->0)),
    {
        let v = chars_of(self.input.as_str());
        let at = self.place(&v);
        let to = begin_of_line(&v, at);
        byte_at(&v, to)
    }

    /// The byte at which the caret's line ends.
    pub fn line_end(&self) -> (r: usize)
        requires
            self.placed(),
        ensures
            r == utf8_len(self@.input.take(find_char(self@.input, '\n', self@.at->0))),
            char_at_byte(self@.input, r as int) == Some(
                find_char(self@.input, '\n', self@.at->0),
            ),
    {
        let v = chars_of(self.input.as_str());
        let at = self.place(&v);
        let to = find(&v, '\n', at);
        byte_at(&v, to)
    }

    /// Moves the caret to where its line begins.
    pub fn to_line_start(&mut self)
        requires
            old(self).placed(),
        ensures
            final(self)@ == (DraftView {
                at: Some(line_begin(old(self)@.input, old(self)@.at->0)),
                ..old(self)@
            }),
    {
        self.caret = self.line_start();
    }

    /// Moves the caret to where its line ends.
    pub fn to_line_end(&mut self)
        requires
            old(self).placed(),
        ensures
            final(self)@ == (DraftView {
                at: Some(find_char(old(self)@.input, '\n', old(self)@.at->0)),
                ..old(self)@
            }),
    {
        self.caret = self.line_end();
    }

    /// Moves the caret to the beginning of the text, or to its end.
    pub fn to_text_end(&mut self, end: bool)
        ensures
            final(self)@ == (DraftView {
                at: Some(if end { old(self)@.input.len() as int } else { 0 }),
                ..old(self)@
            }),
    {
        let v = chars_of(self.input.as_str());
        let total = v.len();
        self.caret = byte_at(&v, if end { total } else { 0 });
    }

    /// Moves the caret one line up or down.
    pub fn move_vertical(&mut self, down: bool)
        requires
            old(self).placed(),
        ensures
            final(self)@ == (DraftView {
                at: Some(vertical(old(self)@.input, old(self)@.at->0, down)),
                ..old(self)@
            }),
    {
        let v = chars_of(self.input.as_str());
        let at = self.place(&v);
        let total = v.len();
        let start = begin_of_line(&v, at);
        let column = count_graphemes(&v, start, at);
        let to = if down {
            let end = find(&v, '\n', at);
            if end < total {
                let stop = find(&v, '\n', end + 1);
                nth(&v, end + 1, stop, column)
            } else {
                at
            }
        } else if start > 0 {
            let from = begin_of_line(&v, start - 1);
            nth(&v, from, start - 1, column)
        } else {
            at
        };
        self.caret = byte_at(&v, to);
    }
}

// ---- The footer ----

#[derive(Clone, Copy, Debug, PartialEq, Eq, Structural)]
pub enum FooterAction {
    Comment,
    CopySelection,
    CopyComments,
    Send,
    ClearFileComments,
}

pub const COPY_SELECTION_LABEL: &'static str = " ^C Copy ";

pub const COPY_SELECTION_LABEL_MAC: &'static str = " ⌘C Copy ";

/// What copying a selection is offered as.
pub open spec fn copy_label(platform: Platform) -> Seq<char> {
    match platform {
        Platform::Mac => COPY_SELECTION_LABEL_MAC@,
        _ => COPY_SELECTION_LABEL@,
    }
}

/// The actions that are offered, with their labels: on a selection, or else on
/// the comments there are.
pub open spec fn offered(platform: Platform, selected: bool, has_comments: bool) -> Seq<
    (FooterAction, Seq<char>),
> {
    if selected {
        seq![
            (FooterAction::Comment, " c Comment "@),
            (FooterAction::CopySelection, copy_label(platform)),
        ]
    } else if has_comments {
        seq![
            (FooterAction::CopyComments, " y Copy "@),
            (FooterAction::Send, " s Send Agent "@),
        ]
    } else {
        Seq::empty()
    }
}

pub open spec fn labels(v: Seq<(FooterAction, &'static str)>) -> Seq<(FooterAction, Seq<char>)> {
    v.map_values(|e: (FooterAction, &'static str)| (e.0, e.1@))
}

/// The actions that are offered, with their labels.
pub fn footer_entries(platform: Platform, selected: bool, has_comments: bool) -> (r: Vec<
    (FooterAction, &'static str),
>)
    ensures
        labels(r@) == offered(platform, selected, has_comments),
{
    let mut r: Vec<(FooterAction, &'static str)> = Vec::new();
    if selected {
        r.push((FooterAction::Comment, " c Comment "));
        let copy = match platform {
            Platform::Mac => COPY_SELECTION_LABEL_MAC,
            _ => COPY_SELECTION_LABEL,
        };
        r.push((FooterAction::CopySelection, copy));
    } else if has_comments {
        r.push((FooterAction::CopyComments, " y Copy "));
        r.push((FooterAction::Send, " s Send Agent "));
    }
    assert(labels(r@) =~= offered(platform, selected, has_comments));
    r
}

/// Whether a key copies the selection: the letter c with control alone, or with command
/// alone where that is the way.
pub open spec fn copies(key: Key, platform: Platform) -> bool {
    key.code == KeyCode::Char('c') && match platform {
        Platform::Mac => only_command(key.modifiers),
        _ => only_control(key.modifiers),
    }
}

/// Whether a key copies the selection.
pub fn is_copy_shortcut(key: &Key, platform: Platform) -> (r: bool)
    ensures
        r == copies(*key, platform),
{
    key.code == KeyCode::Char('c') && match platform {
        Platform::Mac => key.modifiers.only_command(),
        _ => key.modifiers.only_control(),
    }
}

// ---- Handing text on ----

/// What begins text that is pasted.
pub open spec fn paste_start() -> Seq<char> {
    "\x1b[200~"@
}

/// What ends text that is pasted.
pub open spec fn paste_end() -> Seq<char> {
    "\x1b[201~"@
}

/// The first place at or after `from` of either marker, or -1.
pub open spec fn next_marker(s: Seq<char>, from: int) -> int {
    let a = find_seq(s, paste_start(), from);
    let b = find_seq(s, paste_end(), from);
    if a >= 0 && b >= 0 {
        if a < b {
            a
        } else {
            b
        }
    } else if a >= 0 {
        a
    } else {
        b
    }
}

/// `s` from `from` on without the markers in it.
pub open spec fn unmarked(s: Seq<char>, from: int) -> Seq<char>
    decreases s.len() - from,
{
    if from < 0 || from > s.len() {
        Seq::empty()
    } else {
        let i = next_marker(s, from);
        if i < from || i + 6 > s.len() {
            s.skip(from)
        } else {
            s.subrange(from, i) + unmarked(s, i + 6)
        }
    }
}

/// Text as a terminal is told that it is pasted, with no marker of its own.
pub fn bracketed_paste(text: &str) -> (r: String)
    ensures
        r@ == paste_start() + unmarked(text@, 0) + paste_end(),
{
    proof {
        reveal_strlit("\x1b[200~");
        reveal_strlit("\x1b[201~");
    }
    let v = chars_of(text);
    let a = chars_of("\x1b[200~");
    let b = chars_of("\x1b[201~");
    let total = v.len();
    let mut out = chars_of("\x1b[200~");
    let mut from: usize = 0;
    let ghost want = paste_start() + unmarked(v@, 0);
    loop
        invariant_except_break
            out@ + unmarked(v@, from as int) =~= want,
        invariant
            from <= total,
            total == v@.len(),
            a@ == paste_start(),
            b@ == paste_end(),
            v@ == text@,
            a@.len() == 6,
            b@.len() == 6,
            want == paste_start() + unmarked(v@, 0),
        ensures
            out@ == want,
        decreases total - from,
    {
        let i = match (find_text(&v, &a, from), find_text(&v, &b, from)) {
            (Some(i), Some(j)) => Some(if i < j { i } else { j }),
            (Some(i), None) => Some(i),
            (None, Some(j)) => Some(j),
            (None, None) => None,
        };
        let ghost before = out@;
        match i {
            Some(i) => {
                let piece = slice_of(&v, from, i);
                push_all(&mut out, &piece);
                assert(out@ + unmarked(v@, i + 6) =~= before + unmarked(v@, from as int));
                from = i + 6;
            },
            None => {
                let piece = slice_of(&v, from, total);
                assert(piece@ =~= v@.skip(from as int));
                push_all(&mut out, &piece);
                assert(out@ =~= want);
                break;
            },
        }
    }
    push_text(&mut out, "\x1b[201~");
    text_of(&out)
}

/// What to do to put text on the clipboard.
pub enum ClipboardStep {
    /// Run this program with these arguments and the text as its input.
    Run(&'static str, Vec<&'static str>),
    Done(Result<(), String>),
}

#[verifier::ext_equal]
pub enum ClipboardView {
    Run(Seq<char>, Seq<Seq<char>>),
    Copied,
    Failed(Seq<char>),
}

impl View for ClipboardStep {
    type V = ClipboardView;

    open spec fn view(&self) -> ClipboardView {
        match *self {
            ClipboardStep::Run(program, args) => ClipboardView::Run(
                program@,
                crate::git::strs(args@),
            ),
            ClipboardStep::Done(Ok(())) => ClipboardView::Copied,
            ClipboardStep::Done(Err(e)) => ClipboardView::Failed(e@),
        }
    }
}

/// The step after the programs that ended as `tried` says: where the system has one for
/// it, that is run; else each of the three is tried in turn until one succeeds. The last
/// failure stands.
pub open spec fn clipboard_next(platform: Platform, tried: Seq<Result<(), String>>) -> ClipboardView {
    if tried.len() > 0 && tried.last() is Ok {
        ClipboardView::Copied
    } else if tried.len() == 0 && platform == Platform::Mac {
        ClipboardView::Run("pbcopy"@, Seq::empty())
    } else if tried.len() == 0 && platform == Platform::Windows {
        ClipboardView::Run("clip.exe"@, Seq::empty())
    } else if platform != Platform::Other {
        ClipboardView::Failed(tried.last()->Err_0@)
    } else if tried.len() == 0 {
        ClipboardView::Run("wl-copy"@, Seq::empty())
    } else if tried.len() == 1 {
        ClipboardView::Run("xclip"@, seq!["-selection"@, "clipboard"@])
    } else if tried.len() == 2 {
        ClipboardView::Run("xsel"@, seq!["--clipboard"@, "--input"@])
    } else {
        ClipboardView::Failed(tried.last()->Err_0@)
    }
}

/// The next step to put text on the clipboard.
pub fn copy_to_clipboard(platform: Platform, tried: &Vec<Result<(), String>>) -> (r: ClipboardStep)
    ensures
        r@ == clipboard_next(platform, tried@),
{
    let n = tried.len();
    if n > 0 {
        match &tried[n - 1] {
            Ok(()) => {
                return ClipboardStep::Done(Ok(()));
            },
            Err(e) => {
                if n > 2 || platform != Platform::Other {
                    return ClipboardStep::Done(Err(e.clone()));
                }
            },
        }
    }
    let mut args: Vec<&'static str> = Vec::new();
    if n == 0 {
        assert(crate::git::strs(args@) =~= Seq::empty());
        let program = match platform {
            Platform::Mac => "pbcopy",
            Platform::Windows => "clip.exe",
            Platform::Other => "wl-copy",
        };
        ClipboardStep::Run(program, args)
    } else if n == 1 {
        args.push("-selection");
        args.push("clipboard");
        assert(crate::git::strs(args@) =~= seq!["-selection"@, "clipboard"@]);
        ClipboardStep::Run("xclip", args)
    } else {
        args.push("--clipboard");
        args.push("--input");
        assert(crate::git::strs(args@) =~= seq!["--clipboard"@, "--input"@]);
        ClipboardStep::Run("xsel", args)
    }
}

// ---- Agents ----

/// What the host says of a pane that may hold an agent.
pub struct AgentPane {
    pub pane_id: String,
    pub tab_id: String,
    pub agent: Option<String>,
    pub display_agent: Option<String>,
    pub title: Option<String>,
    pub terminal_title_stripped: Option<String>,
}

#[verifier::ext_equal]
pub struct AgentPaneView {
    pub pane_id: Seq<char>,
    pub tab_id: Seq<char>,
    pub agent: Option<Seq<char>>,
    pub display_agent: Option<Seq<char>>,
    pub title: Option<Seq<char>>,
    pub terminal_title_stripped: Option<Seq<char>>,
}

impl View for AgentPane {
    type V = AgentPaneView;

    open spec fn view(&self) -> AgentPaneView {
        AgentPaneView {
            pane_id: self.pane_id@,
            tab_id: self.tab_id@,
            agent: opt_text(self.agent),
            display_agent: opt_text(self.display_agent),
            title: opt_text(self.title),
            terminal_title_stripped: opt_text(self.terminal_title_stripped),
        }
    }
}

pub open spec fn agent_panes(v: Seq<AgentPane>) -> Seq<AgentPaneView> {
    v.map_values(|p: AgentPane| p@)
}

/// An agent that comments can be sent to.
pub struct AgentTarget {
    pub pane_id: String,
    pub label: String,
}

#[verifier::ext_equal]
pub struct AgentView {
    pub pane_id: Seq<char>,
    pub label: Seq<char>,
}

impl View for AgentTarget {
    type V = AgentView;

    open spec fn view(&self) -> AgentView {
        AgentView { pane_id: self.pane_id@, label: self.label@ }
    }
}

impl Clone for AgentTarget {
    fn clone(&self) -> (r: AgentTarget)
        ensures
            r@ == self@,
    {
        AgentTarget { pane_id: self.pane_id.clone(), label: self.label.clone() }
    }
}

pub open spec fn agents_view(v: Seq<AgentTarget>) -> Seq<AgentView> {
    v.map_values(|a: AgentTarget| a@)
}

pub open spec fn written(v: Option<Seq<char>>) -> bool {
    v matches Some(s) && trim(s, Class::White).len() > 0
}

/// What an agent's pane is called: its title, or else its terminal's, or else
/// its agent.
pub open spec fn agent_label(p: AgentPaneView) -> Seq<char> {
    if written(p.title) {
        p.title->0
    } else if written(p.terminal_title_stripped) {
        p.terminal_title_stripped->0
    } else if p.display_agent is Some {
        p.display_agent->0
    } else if p.agent is Some {
        p.agent->0
    } else {
        p.pane_id
    }
}

/// The first pane at or after `i` with this id, or the number of panes.
pub open spec fn pane_at(panes: Seq<AgentPaneView>, id: Seq<char>, i: int) -> int
    decreases panes.len() - i,
{
    if i >= panes.len() {
        panes.len() as int
    } else if panes[i].pane_id == id {
        i
    } else {
        pane_at(panes, id, i + 1)
    }
}

/// The agents in a tab, but for the owner's pane.
pub open spec fn agents_in(panes: Seq<AgentPaneView>, tab: Seq<char>, owner: Seq<char>) -> Seq<
    AgentView,
>
    decreases panes.len(),
{
    if panes.len() == 0 {
        Seq::empty()
    } else {
        let before = agents_in(panes.drop_last(), tab, owner);
        let p = panes.last();
        if p.tab_id == tab && p.pane_id != owner && p.agent is Some {
            before.push(AgentView { pane_id: p.pane_id, label: agent_label(p) })
        } else {
            before
        }
    }
}

/// The agents in the owner's tab.
pub open spec fn agents_near(panes: Seq<AgentPaneView>, owner: Seq<char>) -> Result<
    Seq<AgentView>,
    Seq<char>,
> {
    let i = pane_at(panes, owner, 0);
    if i >= panes.len() {
        Err("Sidebar pane is no longer present"@)
    } else {
        Ok(agents_in(panes, panes[i].tab_id, owner))
    }
}

fn is_written(v: &Option<String>) -> (r: bool)
    ensures
        r == written(opt_text(*v)),
{
    match v {
        Some(s) => {
            let c = chars_of(s.as_str());
            trimmed(&c, Class::White).len() > 0
        },
        None => false,
    }
}

fn label_of(p: &AgentPane) -> (r: String)
    ensures
        r@ == agent_label(p@),
{
    if is_written(&p.title) {
        if let Some(s) = &p.title {
            return s.clone();
        }
    }
    if is_written(&p.terminal_title_stripped) {
        if let Some(s) = &p.terminal_title_stripped {
            return s.clone();
        }
    }
    if let Some(s) = &p.display_agent {
        return s.clone();
    }
    match &p.agent {
        Some(s) => s.clone(),
        None => p.pane_id.clone(),
    }
}

fn find_pane(panes: &Vec<AgentPane>, id: &str) -> (r: usize)
    ensures
        r == pane_at(agent_panes(panes@), id@, 0),
        r <= panes@.len(),
{
    let ghost all = agent_panes(panes@);
    let mut i: usize = 0;
    while i < panes.len()
        invariant
            i <= panes@.len(),
            all == agent_panes(panes@),
            pane_at(all, id@, 0) == pane_at(all, id@, i as int),
        decreases panes@.len() - i,
    {
        assert(all[i as int] == panes@[i as int]@);
        if eq_text(panes[i].pane_id.as_str(), id) {
            return i;
        }
        i += 1;
    }
    i
}

/// The agents in the owner's tab.
pub fn agent_targets(panes: &Vec<AgentPane>, owner: &str) -> (r: Result<Vec<AgentTarget>, String>)
    ensures
        (match r {
            Ok(v) => Ok(agents_view(v@)),
            Err(e) => Err(e@),
        }) == agents_near(agent_panes(panes@), owner@),
{
    let ghost all = agent_panes(panes@);
    let at = find_pane(panes, owner);
    if at >= panes.len() {
        return Err("Sidebar pane is no longer present".to_string());
    }
    assert(all[at as int] == panes@[at as int]@);
    let tab = panes[at].tab_id.as_str();
    let mut out: Vec<AgentTarget> = Vec::new();
    let mut i: usize = 0;
    assert(agents_view(out@) =~= Seq::empty());
    assert(all.take(0) =~= Seq::empty());
    while i < panes.len()
        invariant
            i <= panes@.len(),
            all == agent_panes(panes@),
            agents_view(out@) == agents_in(all.take(i as int), tab@, owner@),
        decreases panes@.len() - i,
    {
        let p = &panes[i];
        assert(all.take(i + 1).drop_last() =~= all.take(i as int));
        assert(all.take(i + 1).last() == p@);
        if eq_text(p.tab_id.as_str(), tab) && !eq_text(p.pane_id.as_str(), owner)
            && p.agent.is_some() {
            let ghost before = agents_view(out@);
            let agent = AgentTarget { pane_id: p.pane_id.clone(), label: label_of(p) };
            out.push(agent);
            assert(agents_view(out@) =~= before.push(agent@));
        }
        i += 1;
    }
    assert(all.take(i as int) =~= all);
    Ok(out)
}

} // verus!
