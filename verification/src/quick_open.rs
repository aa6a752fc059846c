//! Quick open: the files and folders below the Explorer's root, ranked by how
//! well they match what is typed.

use vstd::hash_map::StringHashMap;
use vstd::prelude::*;
use vstd::utf8::encode_utf8;

use crate::bytes::{lossy, lossy_text};
use crate::cells::{text_width, width_of};
use crate::change_tree::joined;
use crate::git::{file_name, last_name};
use crate::input::{
    hits, inside, monus, no_rect, only_control, take_off, Key, KeyCode, Mouse, MouseKind, Rect,
};
use crate::laws::quick_open::{
    best_first, countable, five_le, law_every_match_is_counted, lemma_key_order,
};
use crate::open_mailbox::{mailbox, opt_target, Target, TargetView};
use crate::paths::{is_below, path_key, path_less, stays_below};
use crate::scan::{digits, digits_of, law_order_is_irreflexive, replace, trim, trimmed, Class};
use crate::sort::{
    keys_view, law_sorted_order_is_unique, precedes, sorted_order, sorted_places, SortKey,
    SortKeyView,
};
use crate::style::{
    bg_style, no_style, Color, Line, LineView, RowStep, RowStepView, Span, SpanView, Style,
};
use crate::syntax::{push_spaces, spaces};
use crate::text::{
    cat, cat3, chars_of, find, find_char, has_char, lemma_find_char, lower, lowercase, opt_text,
    pieces, push_all, same, slice_of, split, split_on, text_of, text_slice, texts,
};

verus! {

/// How many results are shown at most.
pub const MAX_RESULTS: usize = 500;

// ---- Requests ----

/// What the Explorer is asked to open: a path below its root.
pub struct OpenRequest {
    pub root: String,
    pub path: String,
    pub is_dir: bool,
}

#[verifier::ext_equal]
pub struct QuickView {
    pub root: Seq<char>,
    pub path: Seq<char>,
    pub is_dir: bool,
}

impl View for OpenRequest {
    type V = QuickView;

    open spec fn view(&self) -> QuickView {
        QuickView { root: self.root@, path: self.path@, is_dir: self.is_dir }
    }
}

pub open spec fn quick_view(r: Option<OpenRequest>) -> Option<QuickView> {
    match r {
        Some(r) => Some(r@),
        None => None,
    }
}

/// Whether a path names something below the root it is taken from.
pub fn safe_relative(path: &str) -> (r: bool)
    ensures
        r == stays_below(path@),
{
    is_below(path)
}

/// Where a pane's requests are left, where there is a state directory.
pub fn request_path(state_dir: Option<&str>, pane_id: &str) -> (r: Option<String>)
    ensures
        opt_text(r) == (match state_dir {
            Some(dir) => Some(mailbox(dir@, pane_id@)),
            None => None,
        }),
{
    crate::open_mailbox::request_path(state_dir, pane_id)
}

/// A pane's mailbox, and the request that was taken out of it and not yet
/// handled.
pub struct Inbox {
    path: Option<String>,
    pending: Option<OpenRequest>,
}

/// What a mailbox that held `read` leaves pending.
pub open spec fn polled(
    pending: Option<QuickView>,
    path: Option<Seq<char>>,
    read: Option<QuickView>,
) -> Option<QuickView> {
    if pending is Some || path is None {
        pending
    } else {
        match read {
            Some(request) if stays_below(request.path) => Some(request),
            _ => None,
        }
    }
}

impl Inbox {
    /// The request that is not yet handled.
    pub closed spec fn waiting(&self) -> Option<QuickView> {
        quick_view(self.pending)
    }

    /// Where requests arrive.
    pub closed spec fn location(&self) -> Option<Seq<char>> {
        opt_text(self.path)
    }

    /// The inbox of the pane with this id, if the pane has one.
    pub fn for_current_pane(pane_id: Option<&str>, state_dir: Option<&str>) -> (r: Inbox)
        ensures
            r.waiting() == None::<QuickView>,
            r.location() == (match (pane_id, state_dir) {
                (Some(id), Some(dir)) if id@.len() > 0 => Some(mailbox(dir@, id@)),
                _ => None,
            }),
    {
        let path = match pane_id {
            Some(id) => if id.is_empty() {
                None
            } else {
                request_path(state_dir, id)
            },
            None => None,
        };
        Inbox { path, pending: None }
    }

    /// The file to read, and remove, before the next poll: none while a request
    /// waits.
    pub fn source(&self) -> (r: Option<&String>)
        ensures
            (match r {
                Some(s) => Some(s@),
                None => None,
            }) == (if self.waiting() is Some {
                None
            } else {
                self.location()
            }),
    {
        if self.pending.is_some() {
            return None;
        }
        match &self.path {
            Some(path) => Some(path),
            None => None,
        }
    }

    /// Takes in what the mailbox's file held. A request for a path that leaves
    /// the root is dropped.
    pub fn poll(&mut self, read: Option<OpenRequest>) -> (r: bool)
        ensures
            final(self).location() == old(self).location(),
            final(self).waiting() == polled(
                old(self).waiting(),
                old(self).location(),
                quick_view(read),
            ),
            r == final(self).waiting() is Some,
    {
        if self.pending.is_some() {
            return true;
        }
        if self.path.is_none() {
            return false;
        }
        match read {
            Some(request) => {
                if safe_relative(request.path.as_str()) {
                    self.pending = Some(request);
                    true
                } else {
                    false
                }
            },
            None => false,
        }
    }

    /// Polls, and hands the waiting request over.
    pub fn take(&mut self, read: Option<OpenRequest>) -> (r: Option<OpenRequest>)
        ensures
            final(self).location() == old(self).location(),
            final(self).waiting() == None::<QuickView>,
            quick_view(r) == polled(
                old(self).waiting(),
                old(self).location(),
                quick_view(read),
            ),
    {
        let _ = self.poll(read);
        self.pending.take()
    }
}

// ---- What there is to find ----

/// A file or a folder, by its path below the root.
#[derive(Debug, PartialEq, Eq)]
pub struct Entry {
    pub path: String,
    pub is_dir: bool,
}

#[verifier::ext_equal]
pub struct FoundView {
    pub path: Seq<char>,
    pub is_dir: bool,
}

impl View for Entry {
    type V = FoundView;

    open spec fn view(&self) -> FoundView {
        FoundView { path: self.path@, is_dir: self.is_dir }
    }
}

impl Clone for Entry {
    fn clone(&self) -> (r: Entry)
        ensures
            r@ == self@,
    {
        Entry { path: self.path.clone(), is_dir: self.is_dir }
    }
}

pub open spec fn found_view(v: Seq<Entry>) -> Seq<FoundView> {
    v.map_values(|e: Entry| e@)
}

/// The first position at or after `from` of a zero byte, or the length.
pub open spec fn find_zero(s: Seq<u8>, from: int) -> int
    decreases s.len() - from,
{
    if from >= s.len() {
        s.len() as int
    } else if s[from] == 0 {
        from
    } else {
        find_zero(s, from + 1)
    }
}

/// The texts between the zero bytes of `s` from `start` on, but for empty ones.
pub open spec fn zero_parts(s: Seq<u8>, start: int) -> Seq<Seq<char>>
    decreases s.len() - start,
{
    if start < 0 || start >= s.len() {
        Seq::empty()
    } else {
        let i = find_zero(s, start);
        let rest = if i < start || i >= s.len() {
            Seq::empty()
        } else {
            zero_parts(s, i + 1)
        };
        if i > start {
            seq![lossy(s.subrange(start, i))] + rest
        } else {
            rest
        }
    }
}

/// The parts of a path that name something, with a slash between each two: no
/// empty part and no `.` after the first part.
pub open spec fn tidy(parts: Seq<Seq<char>>) -> Seq<char>
    decreases parts.len(),
{
    if parts.len() == 0 {
        Seq::empty()
    } else if parts.last().len() == 0 || (parts.len() > 1 && parts.last() == "."@) {
        tidy(parts.drop_last())
    } else {
        joined(tidy(parts.drop_last()), parts.last())
    }
}

/// The paths among `names` that stay below the root, tidied.
pub open spec fn safe_files(names: Seq<Seq<char>>) -> Seq<Seq<char>>
    decreases names.len(),
{
    if names.len() == 0 {
        Seq::empty()
    } else {
        let before = safe_files(names.drop_last());
        if stays_below(names.last()) {
            before.push(tidy(split(names.last(), '/')))
        } else {
            before
        }
    }
}

/// The folders above a path: what comes before each of its first `n`
/// characters that is a slash.
pub open spec fn parents(path: Seq<char>, n: int) -> Seq<Seq<char>>
    decreases n,
{
    if n <= 0 {
        Seq::empty()
    } else if path[n - 1] == '/' && n > 1 {
        parents(path, n - 1).push(path.take(n - 1))
    } else {
        parents(path, n - 1)
    }
}

/// The folders above each of the paths.
pub open spec fn all_parents(files: Seq<Seq<char>>) -> Seq<Seq<char>>
    decreases files.len(),
{
    if files.len() == 0 {
        Seq::empty()
    } else {
        all_parents(files.drop_last()) + parents(files.last(), files.last().len() as int)
    }
}

/// `e` lists the files and the folders above them, each once and in order.
pub open spec fn listing(files: Seq<Seq<char>>, e: Seq<FoundView>) -> bool {
    let names = files + all_parents(files);
    &&& forall|i: int, j: int|
        0 <= i < j < e.len() ==> path_less(#[trigger] e[i].path, #[trigger] e[j].path)
    &&& forall|i: int|
        0 <= i < e.len() ==> names.contains(#[trigger] e[i].path) && e[i].is_dir
            == !files.contains(e[i].path)
    &&& forall|k: int| 0 <= k < names.len() ==> has_path(e, #[trigger] names[k])
}

pub open spec fn has_path(e: Seq<FoundView>, path: Seq<char>) -> bool {
    exists|i: int| 0 <= i < e.len() && #[trigger] e[i].path == path
}

proof fn lemma_find_zero(s: Seq<u8>, from: int)
    requires
        0 <= from <= s.len(),
    ensures
        from <= find_zero(s, from) <= s.len(),
        forall|k: int| from <= k < find_zero(s, from) ==> s[k] != 0,
    decreases s.len() - from,
{
    if from < s.len() && s[from] != 0 {
        lemma_find_zero(s, from + 1);
    }
}

fn zero_at(v: &[u8], from: usize) -> (r: usize)
    requires
        from <= v@.len(),
    ensures
        r == find_zero(v@, from as int),
        from <= r <= v@.len(),
{
    let mut i: usize = from;
    while i < v.len() && v[i] != 0
        invariant
            from <= i <= v@.len(),
            find_zero(v@, from as int) == find_zero(v@, i as int),
        decreases v@.len() - i,
    {
        i += 1;
    }
    i
}

fn bytes_of(v: &[u8], from: usize, to: usize) -> (r: Vec<u8>)
    requires
        from <= to <= v@.len(),
    ensures
        r@ == v@.subrange(from as int, to as int),
{
    let mut out: Vec<u8> = Vec::new();
    let mut i: usize = from;
    while i < to
        invariant
            from <= i <= to <= v@.len(),
            out@ =~= v@.subrange(from as int, i as int),
        decreases to - i,
    {
        out.push(v[i]);
        i += 1;
    }
    out
}

/// No text of the list holds a NUL.
spec fn without_nul(v: Seq<Seq<char>>) -> bool {
    forall|k: int| 0 <= k < v.len() ==> !has_char(#[trigger] v[k], '\0')
}

fn names_in(output: &[u8]) -> (r: Vec<Vec<char>>)
    ensures
        pieces(r@) == zero_parts(output@, 0),
        without_nul(pieces(r@)),
{
    let total = output.len();
    let mut out: Vec<Vec<char>> = Vec::new();
    let mut start: usize = 0;
    assert(pieces(out@) =~= Seq::empty());
    while start < total
        invariant
            total == output@.len(),
            start <= total,
            pieces(out@) + zero_parts(output@, start as int) =~= zero_parts(output@, 0),
            without_nul(pieces(out@)),
        decreases total - start,
    {
        let i = zero_at(output, start);
        proof {
            lemma_find_zero(output@, start as int);
        }
        let ghost before = pieces(out@);
        let ghost rest = if i >= total {
            Seq::empty()
        } else {
            zero_parts(output@, i + 1)
        };
        if i > start {
            let part = bytes_of(output, start, i);
            assert forall|k: int| 0 <= k < part@.len() implies part@[k] != 0 by {
                assert(part@[k] == output@[start + k]);
            }
            let text = lossy_text(&part);
            let name = chars_of(text.as_str());
            out.push(name);
            assert(pieces(out@) =~= before.push(name@));
            assert(before.push(name@) + rest =~= before + (seq![name@] + rest));
        }
        if i == total {
            assert(pieces(out@) + rest =~= pieces(out@));
            return out;
        }
        start = i + 1;
    }
    assert(pieces(out@) + zero_parts(output@, start as int) =~= pieces(out@));
    out
}

proof fn lemma_tidy_no_nul(parts: Seq<Seq<char>>)
    requires
        without_nul(parts),
    ensures
        !has_char(tidy(parts), '\0'),
    decreases parts.len(),
{
    if parts.len() > 0 {
        assert forall|k: int| 0 <= k < parts.drop_last().len() implies !has_char(
            #[trigger] parts.drop_last()[k],
            '\0',
        ) by {
            assert(parts.drop_last()[k] == parts[k]);
        }
        lemma_tidy_no_nul(parts.drop_last());
        let before = tidy(parts.drop_last());
        let all = tidy(parts);
        assert(!has_char(parts[parts.len() - 1], '\0'));
        assert forall|i: int| 0 <= i < all.len() implies all[i] != '\0' by {
            if all == joined(before, parts.last()) {
                if before.len() == 0 {
                    assert(all[i] == parts.last()[i]);
                } else if i < before.len() {
                    assert(all[i] == before[i]);
                } else if i > before.len() {
                    assert(all[i] == parts.last()[i - before.len() - 1]);
                }
            }
        }
    }
}

proof fn lemma_split_no_nul(s: Seq<char>, start: int)
    requires
        0 <= start <= s.len(),
        !has_char(s, '\0'),
    ensures
        without_nul(crate::text::split_from(s, '/', start)),
    decreases s.len() - start,
{
    lemma_find_char(s, '/', start);
    let i = find_char(s, '/', start);
    let all = crate::text::split_from(s, '/', start);
    if i < s.len() {
        lemma_split_no_nul(s, i + 1);
        let rest = crate::text::split_from(s, '/', i + 1);
        assert forall|k: int| 0 <= k < all.len() implies !has_char(#[trigger] all[k], '\0') by {
            if k > 0 {
                assert(all[k] == rest[k - 1]);
            }
        }
    }
}

fn tidied(name: &Vec<char>) -> (r: Vec<char>)
    ensures
        r@ == tidy(split(name@, '/')),
        !has_char(name@, '\0') ==> !has_char(r@, '\0'),
{
    let parts = split_on(name, '/');
    let ghost all = pieces(parts@);
    let dot = chars_of(".");
    let mut out: Vec<char> = Vec::new();
    let mut i: usize = 0;
    while i < parts.len()
        invariant
            i <= parts@.len(),
            all == pieces(parts@),
            dot@ == "."@,
            out@ == tidy(all.take(i as int)),
        decreases parts@.len() - i,
    {
        let part = &parts[i];
        assert(all.take(i + 1).drop_last() =~= all.take(i as int));
        assert(all.take(i + 1).last() == parts@[i as int]@);
        if part.len() > 0 && !(i > 0 && same(part, &dot)) {
            let ghost before = out@;
            if out.len() > 0 {
                out.push('/');
            }
            push_all(&mut out, part);
            assert(out@ =~= joined(before, part@));
        }
        i += 1;
    }
    assert(all.take(i as int) =~= all);
    proof {
        if !has_char(name@, '\0') {
            lemma_split_no_nul(name@, 0);
            lemma_tidy_no_nul(all);
        }
    }
    out
}

fn files_in(names: &Vec<Vec<char>>) -> (r: Vec<Vec<char>>)
    requires
        without_nul(pieces(names@)),
    ensures
        pieces(r@) == safe_files(pieces(names@)),
        without_nul(pieces(r@)),
{
    let ghost all = pieces(names@);
    let mut out: Vec<Vec<char>> = Vec::new();
    let mut i: usize = 0;
    assert(pieces(out@) =~= Seq::empty());
    while i < names.len()
        invariant
            i <= names@.len(),
            all == pieces(names@),
            without_nul(all),
            pieces(out@) == safe_files(all.take(i as int)),
            without_nul(pieces(out@)),
        decreases names@.len() - i,
    {
        assert(all.take(i + 1).drop_last() =~= all.take(i as int));
        assert(all.take(i + 1).last() == names@[i as int]@);
        assert(!has_char(all[i as int], '\0'));
        let text = text_of(&names[i]);
        if is_below(text.as_str()) {
            let ghost before = pieces(out@);
            let file = tidied(&names[i]);
            out.push(file);
            assert(pieces(out@) =~= before.push(file@));
        }
        i += 1;
    }
    assert(all.take(i as int) =~= all);
    out
}

fn push_parents(out: &mut Vec<Vec<char>>, path: &Vec<char>)
    ensures
        pieces(final(out)@) == pieces(old(out)@) + parents(path@, path@.len() as int),
{
    let mut n: usize = 0;
    let total = path.len();
    assert(pieces(out@) + Seq::<Seq<char>>::empty() =~= pieces(out@));
    while n < total
        invariant
            total == path@.len(),
            n <= total,
            pieces(out@) == pieces(old(out)@) + parents(path@, n as int),
        decreases total - n,
    {
        if path[n] == '/' && n > 0 {
            let dir = slice_of(path, 0, n);
            assert(dir@ =~= path@.take(n as int));
            let ghost before = pieces(out@);
            out.push(dir);
            assert(pieces(out@) =~= before.push(dir@));
            assert(pieces(out@) =~= pieces(old(out)@) + parents(path@, n + 1));
        }
        n += 1;
    }
}

fn with_parents(files: Vec<Vec<char>>) -> (r: Vec<Vec<char>>)
    ensures
        pieces(r@) == pieces(files@) + all_parents(pieces(files@)),
{
    let ghost all = pieces(files@);
    let n = files.len();
    let mut out = files;
    let mut i: usize = 0;
    assert(all + all_parents(all.take(0)) =~= all);
    while i < n
        invariant
            i <= n,
            n == all.len(),
            pieces(out@) == all + all_parents(all.take(i as int)),
        decreases n - i,
    {
        assert(all.take(i + 1).drop_last() =~= all.take(i as int));
        assert(out@.len() == pieces(out@).len());
        assert(pieces(out@)[i as int] == out@[i as int]@);
        assert(all.take(i + 1).last() == out@[i as int]@);
        let file = slice_of(&out[i], 0, out[i].len());
        assert(file@ =~= out@[i as int]@);
        let ghost before = pieces(out@);
        push_parents(&mut out, &file);
        assert(pieces(out@) =~= all + all_parents(all.take(i + 1)));
        i += 1;
    }
    assert(all.take(i as int) =~= all);
    out
}

proof fn lemma_parents_no_nul(path: Seq<char>, n: int)
    requires
        0 <= n <= path.len(),
        !has_char(path, '\0'),
    ensures
        without_nul(parents(path, n)),
    decreases n,
{
    if n > 0 {
        lemma_parents_no_nul(path, n - 1);
    }
}

proof fn lemma_all_parents_no_nul(files: Seq<Seq<char>>)
    requires
        without_nul(files),
    ensures
        without_nul(all_parents(files)),
    decreases files.len(),
{
    if files.len() > 0 {
        assert forall|k: int| 0 <= k < files.drop_last().len() implies !has_char(
            #[trigger] files.drop_last()[k],
            '\0',
        ) by {
            assert(files.drop_last()[k] == files[k]);
        }
        lemma_all_parents_no_nul(files.drop_last());
        assert(!has_char(files[files.len() - 1], '\0'));
        lemma_parents_no_nul(files.last(), files.last().len() as int);
        let a = all_parents(files.drop_last());
        let b = parents(files.last(), files.last().len() as int);
        assert forall|k: int| 0 <= k < (a + b).len() implies !has_char(#[trigger] (a + b)[k], '\0') by {
            if k < a.len() {
                assert((a + b)[k] == a[k]);
            } else {
                assert((a + b)[k] == b[k - a.len()]);
            }
        }
    }
}

proof fn lemma_key_names(a: Seq<char>, b: Seq<char>)
    requires
        !has_char(a, '\0'),
        !has_char(b, '\0'),
        path_key(a) == path_key(b),
    ensures
        a == b,
{
    assert(a.len() == path_key(a).len());
    assert(b.len() == path_key(b).len());
    assert forall|i: int| 0 <= i < a.len() implies a[i] == b[i] by {
        assert(path_key(a)[i] == if a[i] == '/' { '\0' } else { a[i] });
        assert(path_key(b)[i] == if b[i] == '/' { '\0' } else { b[i] });
        assert(a[i] != '\0');
        assert(b[i] != '\0');
    }
    assert(a =~= b);
}

/// What paths are sorted by.
spec fn name_keys(names: Seq<Seq<char>>) -> Seq<SortKeyView> {
    names.map_values(|n: Seq<char>| SortKeyView { rank: (0, 0, 0, 0, 0), text: path_key(n) })
}

fn keys_of(names: &Vec<Vec<char>>) -> (r: Vec<SortKey>)
    ensures
        keys_view(r@) == name_keys(pieces(names@)),
{
    let mut out: Vec<SortKey> = Vec::new();
    let mut i: usize = 0;
    while i < names.len()
        invariant
            i <= names@.len(),
            keys_view(out@) =~= name_keys(pieces(names@)).take(i as int),
        decreases names@.len() - i,
    {
        let text = replace(&names[i], '/', '\0');
        let ghost before = keys_view(out@);
        let key = SortKey { rank: (0, 0, 0, 0, 0), text };
        out.push(key);
        assert(keys_view(out@) =~= before.push(key@));
        assert(pieces(names@)[i as int] == names@[i as int]@);
        assert(name_keys(pieces(names@))[i as int] == key@);
        i += 1;
    }
    out
}

/// What is listed after the first `i` of the sorted names.
spec fn listed_so_far(
    names: Seq<Seq<char>>,
    n: int,
    order: Seq<usize>,
    i: int,
    e: Seq<FoundView>,
) -> bool {
    &&& forall|p: int, q: int|
        0 <= p < q < e.len() ==> path_less(#[trigger] e[p].path, #[trigger] e[q].path)
    &&& forall|p: int|
        0 <= p < e.len() ==> names.contains(#[trigger] e[p].path) && e[p].is_dir == !names.take(
            n,
        ).contains(e[p].path)
    &&& forall|k: int| 0 <= k < i ==> has_path(e, names[#[trigger] order[k] as int])
    &&& e.len() == 0 <==> i == 0
    &&& e.len() > 0 ==> e.last().path == names[order[i - 1] as int]
}

proof fn lemma_order_between(
    names: Seq<Seq<char>>,
    order: Seq<usize>,
    p: int,
    q: int,
)
    requires
        sorted_places(name_keys(names), order, 0, names.len() as int),
        0 <= p <= q < order.len(),
    ensures
        path_key(names[order[p] as int]) == path_key(names[order[q] as int]) || path_less(
            names[order[p] as int],
            names[order[q] as int],
        ),
{
    let keys = name_keys(names);
    if p < q {
        assert(precedes(keys, order[p] as int, order[q] as int));
        assert(keys[order[p] as int].text == path_key(names[order[p] as int]));
        assert(keys[order[q] as int].text == path_key(names[order[q] as int]));
    }
}

/// A name that differs from the one before it in the order is new, and is a
/// file exactly where its place is among the files.
proof fn lemma_new_name(names: Seq<Seq<char>>, n: int, order: Seq<usize>, i: int)
    requires
        sorted_places(name_keys(names), order, 0, names.len() as int),
        without_nul(names),
        0 <= n <= names.len() <= usize::MAX,
        0 <= i < order.len(),
        i > 0 ==> names[order[i] as int] != names[order[i - 1] as int],
    ensures
        i > 0 ==> path_less(names[order[i - 1] as int], names[order[i] as int]),
        (order[i] < n) == names.take(n).contains(names[order[i] as int]),
{
    let keys = name_keys(names);
    let cur = order[i] as int;
    if i > 0 {
        lemma_order_between(names, order, i - 1, i);
        if path_key(names[order[i - 1] as int]) == path_key(names[cur]) {
            lemma_key_names(names[order[i - 1] as int], names[cur]);
        }
    }
    if cur < n {
        assert(names.take(n)[cur] == names[cur]);
    } else if names.take(n).contains(names[cur]) {
        let f = choose|f: int| 0 <= f < names.take(n).len() && names.take(n)[f] == names[cur];
        let x = f as usize;
        assert(order.contains(x));
        let q = choose|q: int| 0 <= q < order.len() && order[q] == x;
        assert(keys[f] == keys[cur]);
        if q > i {
            assert(precedes(keys, cur, f));
            crate::scan::law_order_is_irreflexive(keys[f].text);
            assert(false);
        }
        assert(q < i);
        lemma_order_between(names, order, q, i - 1);
        let prev = order[i - 1] as int;
        assert(path_less(names[prev], names[cur]));
        if path_key(names[f]) != path_key(names[prev]) {
            crate::scan::law_order_is_transitive(
                path_key(names[f]),
                path_key(names[prev]),
                path_key(names[cur]),
            );
        }
        crate::scan::law_order_is_irreflexive(path_key(names[cur]));
        assert(false);
    }
}

proof fn lemma_list_new(
    names: Seq<Seq<char>>,
    n: int,
    order: Seq<usize>,
    i: int,
    e: Seq<FoundView>,
    entry: FoundView,
)
    requires
        sorted_places(name_keys(names), order, 0, names.len() as int),
        without_nul(names),
        0 <= n <= names.len() <= usize::MAX,
        0 <= i < order.len(),
        listed_so_far(names, n, order, i, e),
        i > 0 ==> names[order[i] as int] != names[order[i - 1] as int],
        entry.path == names[order[i] as int],
        entry.is_dir == (order[i] >= n),
    ensures
        listed_so_far(names, n, order, i + 1, e.push(entry)),
{
    lemma_new_name(names, n, order, i);
    let next = e.push(entry);
    assert forall|p: int, q: int| 0 <= p < q < next.len() implies path_less(
        #[trigger] next[p].path,
        #[trigger] next[q].path,
    ) by {
        if q == e.len() {
            if p < e.len() - 1 {
                assert(path_less(e[p].path, e[e.len() - 1].path));
                crate::scan::law_order_is_transitive(
                    path_key(e[p].path),
                    path_key(e.last().path),
                    path_key(entry.path),
                );
            }
        }
    }
    assert forall|k: int| 0 <= k < i + 1 implies has_path(next, names[#[trigger] order[k] as int]) by {
        if k < i {
            assert(has_path(e, names[order[k] as int]));
            let p = choose|p: int| 0 <= p < e.len() && #[trigger] e[p].path == names[order[k] as int];
            assert(next[p].path == names[order[k] as int]);
        } else {
            assert(next[e.len() as int].path == entry.path);
        }
    }
    assert(names.contains(names[order[i] as int]));
}

proof fn lemma_list_old(
    names: Seq<Seq<char>>,
    n: int,
    order: Seq<usize>,
    i: int,
    e: Seq<FoundView>,
)
    requires
        0 < i < order.len(),
        listed_so_far(names, n, order, i, e),
        names[order[i] as int] == names[order[i - 1] as int],
    ensures
        listed_so_far(names, n, order, i + 1, e),
{
    assert(has_path(e, names[order[i - 1] as int]));
}

fn list_names(names: &Vec<Vec<char>>, n: usize) -> (r: Vec<Entry>)
    requires
        n <= names@.len(),
        without_nul(pieces(names@)),
        pieces(names@) == pieces(names@).take(n as int) + all_parents(
            pieces(names@).take(n as int),
        ),
    ensures
        listing(pieces(names@).take(n as int), found_view(r@)),
{
    let keys = keys_of(names);
    let order = sorted_order(&keys);
    let ghost all = pieces(names@);
    let count = order.len();
    let mut out: Vec<Entry> = Vec::new();
    let mut i: usize = 0;
    assert(names.len() == all.len());
    assert(keys@.len() == keys_view(keys@).len());
    while i < count
        invariant
            i <= count,
            count == order@.len(),
            all == pieces(names@),
            all.len() <= usize::MAX,
            n <= all.len(),
            without_nul(all),
            sorted_places(name_keys(all), order@, 0, all.len() as int),
            listed_so_far(all, n as int, order@, i as int, found_view(out@)),
        decreases count - i,
    {
        let cur = order[i];
        assert(all[cur as int] == names@[cur as int]@);
        let repeated = if i > 0 {
            let prev = order[i - 1];
            assert(all[prev as int] == names@[prev as int]@);
            same(&names[prev], &names[cur])
        } else {
            false
        };
        if repeated {
            proof {
                lemma_list_old(all, n as int, order@, i as int, found_view(out@));
            }
        } else {
            let entry = Entry { path: text_of(&names[cur]), is_dir: cur >= n };
            proof {
                lemma_list_new(all, n as int, order@, i as int, found_view(out@), entry@);
            }
            let ghost before = found_view(out@);
            out.push(entry);
            assert(found_view(out@) =~= before.push(entry@));
        }
        i += 1;
    }
    let ghost e = found_view(out@);
    assert forall|k: int| 0 <= k < all.len() implies has_path(e, #[trigger] all[k]) by {
        let x = k as usize;
        assert(order@.contains(x));
        let p = choose|p: int| 0 <= p < order@.len() && order@[p] == x;
        assert(has_path(e, all[order@[p] as int]));
    }
    out
}

// ---- How paths are spelled ----

/// Whether a part of the path that names something ends after its first `n`
/// characters.
pub open spec fn ends_part(path: Seq<char>, n: int) -> bool {
    &&& 0 < n <= path.len()
    &&& path[n - 1] != '/'
    &&& n == path.len() || path[n] == '/'
    &&& !(n >= 2 && path[n - 1] == '.' && path[n - 2] == '/')
}

/// What ends a part among the first `n` characters of a path, the longest first: the
/// path and the folders above it, as they are spelled in it.
pub open spec fn spelled_up(path: Seq<char>, n: int) -> Seq<Seq<char>>
    decreases n,
{
    if n <= 0 {
        Seq::empty()
    } else if ends_part(path, n) {
        seq![path.take(n)] + spelled_up(path, n - 1)
    } else {
        spelled_up(path, n - 1)
    }
}

/// All but the first.
pub open spec fn but_first(s: Seq<Seq<char>>) -> Seq<Seq<char>> {
    if s.len() == 0 {
        s
    } else {
        s.skip(1)
    }
}

/// The folders above a path, the nearest first, as they are spelled in it.
pub open spec fn folders_above(path: Seq<char>) -> Seq<Seq<char>> {
    but_first(spelled_up(path, path.len() as int))
}

/// The paths among `names` that stay below the root, each after the folders above it.
pub open spec fn spellings(names: Seq<Seq<char>>) -> Seq<Seq<char>>
    decreases names.len(),
{
    if names.len() == 0 {
        Seq::empty()
    } else if stays_below(names.last()) {
        spellings(names.drop_last()) + folders_above(names.last()).push(names.last())
    } else {
        spellings(names.drop_last())
    }
}

/// For each path among the first `n`, tidied, the place of its first spelling.
pub open spec fn first_spelled(spelled: Seq<Seq<char>>, n: int) -> Map<Seq<char>, usize>
    decreases n,
{
    if n <= 0 {
        Map::empty()
    } else {
        let before = first_spelled(spelled, n - 1);
        let key = tidy(split(spelled[n - 1], '/'));
        if before.contains_key(key) {
            before
        } else {
            before.insert(key, (n - 1) as usize)
        }
    }
}

/// The path as it was spelled first.
pub open spec fn spelled_as(spelled: Seq<Seq<char>>, path: Seq<char>) -> Seq<char> {
    let places = first_spelled(spelled, spelled.len() as int);
    if places.contains_key(path) && places[path] < spelled.len() {
        spelled[places[path] as int]
    } else {
        path
    }
}

pub open spec fn respelled(e: Seq<FoundView>, spelled: Seq<Seq<char>>) -> Seq<FoundView> {
    e.map_values(|f: FoundView| FoundView { path: spelled_as(spelled, f.path), ..f })
}

/// `e` lists the files among `names` that stay below the root and the folders above
/// them, each once and in the order of their parts, spelled as they came first.
pub open spec fn listed(names: Seq<Seq<char>>, e: Seq<FoundView>) -> bool {
    exists|tidied: Seq<FoundView>| #[trigger]
        listing(safe_files(names), tidied) && e == respelled(tidied, spellings(names))
}

fn part_ends(path: &Vec<char>, n: usize) -> (r: bool)
    requires
        0 < n <= path@.len(),
    ensures
        r == ends_part(path@, n as int),
{
    path[n - 1] != '/' && (n == path.len() || path[n] == '/') && !(n >= 2 && path[n - 1] == '.'
        && path[n - 2] == '/')
}

fn push_folders(out: &mut Vec<Vec<char>>, path: &Vec<char>)
    ensures
        pieces(final(out)@) == pieces(old(out)@) + folders_above(path@),
{
    let ghost want = pieces(out@) + folders_above(path@);
    let mut n = path.len();
    let mut seen = false;
    while n > 0
        invariant
            n <= path@.len(),
            pieces(out@) + (if seen {
                spelled_up(path@, n as int)
            } else {
                but_first(spelled_up(path@, n as int))
            }) =~= want,
        decreases n,
    {
        if part_ends(path, n) {
            let ghost rest = spelled_up(path@, n - 1);
            assert(spelled_up(path@, n as int).skip(1) =~= rest);
            if seen {
                let dir = slice_of(path, 0, n);
                assert(dir@ =~= path@.take(n as int));
                let ghost before = pieces(out@);
                out.push(dir);
                assert(pieces(out@) =~= before.push(dir@));
                assert(before + (seq![dir@] + rest) =~= before.push(dir@) + rest);
            }
            seen = true;
        }
        n -= 1;
    }
    assert(pieces(out@) =~= want);
}

fn spelled_in(names: &Vec<Vec<char>>) -> (r: Vec<Vec<char>>)
    ensures
        pieces(r@) == spellings(pieces(names@)),
{
    let ghost all = pieces(names@);
    let mut out: Vec<Vec<char>> = Vec::new();
    let mut i: usize = 0;
    assert(pieces(out@) =~= Seq::empty());
    while i < names.len()
        invariant
            i <= names@.len(),
            all == pieces(names@),
            pieces(out@) == spellings(all.take(i as int)),
        decreases names@.len() - i,
    {
        assert(all.take(i + 1).drop_last() =~= all.take(i as int));
        assert(all.take(i + 1).last() == names@[i as int]@);
        let text = text_of(&names[i]);
        if is_below(text.as_str()) {
            let ghost start = pieces(out@);
            push_folders(&mut out, &names[i]);
            let ghost before = pieces(out@);
            let name = slice_of(&names[i], 0, names[i].len());
            assert(name@ =~= names@[i as int]@);
            out.push(name);
            assert(pieces(out@) =~= before.push(name@));
            assert(before.push(name@) =~= start + folders_above(name@).push(name@));
        }
        i += 1;
    }
    assert(all.take(i as int) =~= all);
    out
}

fn places_of(spelled: &Vec<Vec<char>>) -> (r: StringHashMap<usize>)
    ensures
        r@ == first_spelled(pieces(spelled@), spelled@.len() as int),
{
    let ghost all = pieces(spelled@);
    let mut places: StringHashMap<usize> = StringHashMap::new();
    let mut i: usize = 0;
    assert(places@ =~= Map::empty());
    while i < spelled.len()
        invariant
            i <= spelled@.len(),
            all == pieces(spelled@),
            places@ == first_spelled(all, i as int),
        decreases spelled@.len() - i,
    {
        assert(all[i as int] == spelled@[i as int]@);
        let key = text_of(&tidied(&spelled[i]));
        if !places.contains_key(key.as_str()) {
            places.insert(key, i);
        }
        i += 1;
    }
    places
}

fn respell(list: Vec<Entry>, names: &Vec<Vec<char>>) -> (r: Vec<Entry>)
    ensures
        found_view(r@) == respelled(found_view(list@), spellings(pieces(names@))),
{
    let spelled = spelled_in(names);
    let places = places_of(&spelled);
    let ghost all = pieces(spelled@);
    let ghost want = respelled(found_view(list@), all);
    let mut out: Vec<Entry> = Vec::new();
    let mut i: usize = 0;
    assert(all.len() == spelled@.len());
    while i < list.len()
        invariant
            i <= list@.len(),
            all == pieces(spelled@),
            all.len() == spelled@.len(),
            places@ == first_spelled(all, all.len() as int),
            want == respelled(found_view(list@), all),
            found_view(out@) =~= want.take(i as int),
        decreases list@.len() - i,
    {
        let entry = &list[i];
        let path = match places.get(entry.path.as_str()) {
            Some(place) => if *place < spelled.len() {
                assert(all[*place as int] == spelled@[*place as int]@);
                text_of(&spelled[*place])
            } else {
                entry.path.clone()
            },
            None => entry.path.clone(),
        };
        let next = Entry { path, is_dir: entry.is_dir };
        let ghost before = found_view(out@);
        out.push(next);
        assert(found_view(out@) =~= before.push(next@));
        assert(found_view(list@)[i as int] == list@[i as int]@);
        assert(want[i as int] == next@);
        i += 1;
    }
    assert(want.take(i as int) =~= want);
    out
}

/// How a call of ripgrep ended.
pub enum RgReply {
    /// There is no such program.
    Missing,
    /// It could not be called, for this reason.
    NotStarted(String),
    /// It ended; `status` says so in words.
    Ended { success: bool, code: Option<i32>, status: String, stderr: Vec<u8>, stdout: Vec<u8> },
}

/// Why a call of ripgrep lists nothing. That nothing was found is no failure.
pub open spec fn rg_failure(reply: RgReply) -> Option<Seq<char>> {
    match reply {
        RgReply::Missing => Some("ripgrep (`rg`) is not available."@),
        RgReply::NotStarted(e) => Some("Failed to start ripgrep: "@ + e@),
        RgReply::Ended { success, code, status, stderr, .. } => if success || code == Some(1i32) {
            None
        } else {
            let said = trim(lossy(stderr@), Class::White);
            Some(
                if said.len() == 0 {
                    "ripgrep exited with "@ + status@
                } else {
                    said
                },
            )
        },
    }
}

/// What is listed after a call of ripgrep, or why nothing is.
pub fn index_entries(reply: RgReply) -> (r: Result<Vec<Entry>, String>)
    ensures
        match r {
            Ok(v) => rg_failure(reply) is None && reply is Ended && listed(
                zero_parts(reply->stdout@, 0),
                found_view(v@),
            ),
            Err(e) => rg_failure(reply) == Some(e@),
        },
{
    match reply {
        RgReply::Missing => Err("ripgrep (`rg`) is not available.".to_string()),
        RgReply::NotStarted(e) => Err(cat("Failed to start ripgrep: ", e.as_str())),
        RgReply::Ended { success, code, status, stderr, stdout } => {
            let nothing = match code {
                Some(code) => code == 1,
                None => false,
            };
            if success || nothing {
                return entries_from_rg(&stdout);
            }
            let text = lossy_text(&stderr);
            let v = chars_of(text.as_str());
            let said = trimmed(&v, Class::White);
            Err(
                if said.len() == 0 {
                    cat("ripgrep exited with ", status.as_str())
                } else {
                    text_of(&said)
                },
            )
        },
    }
}

/// The files that a NUL-separated list names and the folders above them. Paths
/// that leave the root are passed over.
pub fn entries_from_rg(output: &[u8]) -> (r: Result<Vec<Entry>, String>)
    ensures
        r matches Ok(v) && listed(zero_parts(output@, 0), found_view(v@)),
{
    let names = names_in(output);
    let files = files_in(&names);
    let ghost wanted = pieces(files@);
    let n = files.len();
    let all = with_parents(files);
    assert(pieces(all@).take(n as int) =~= wanted);
    proof {
        lemma_all_parents_no_nul(wanted);
        assert forall|k: int| 0 <= k < pieces(all@).len() implies !has_char(
            #[trigger] pieces(all@)[k],
            '\0',
        ) by {
            if k < n {
                assert(pieces(all@)[k] == wanted[k]);
            } else {
                assert(pieces(all@)[k] == all_parents(wanted)[k - n]);
            }
        }
    }
    let tidied = list_names(&all, n);
    assert(listing(safe_files(zero_parts(output@, 0)), found_view(tidied@)));
    Ok(respell(tidied, &names))
}

// ---- Ranking ----

/// Where the letters of `query` are first found in `candidate`, one after the
/// other from `from` on.
pub open spec fn letter_places(candidate: Seq<char>, query: Seq<char>, from: int) -> Option<Seq<int>>
    decreases query.len(),
{
    if query.len() == 0 {
        Some(Seq::empty())
    } else {
        let p = find_char(candidate, query[0], from);
        if p >= candidate.len() {
            None
        } else {
            match letter_places(candidate, query.subrange(1, query.len() as int), p + 1) {
                Some(rest) => Some(seq![p] + rest),
                None => None,
            }
        }
    }
}

/// How well a query's letters match: the letters between those matched, where
/// the first is, and how long the candidate is. Less is better.
pub open spec fn letters_rank(candidate: Seq<char>, query: Seq<char>) -> Option<(int, int, int)> {
    if query.len() == 0 {
        Some((0, 0, candidate.len() as int))
    } else {
        match letter_places(candidate, query, 0) {
            Some(places) => Some(
                (
                    places.last() - places[0] + 1 - places.len(),
                    places[0],
                    candidate.len() as int,
                ),
            ),
            None => None,
        }
    }
}

pub open spec fn rank_ints(r: Option<(usize, usize, usize)>) -> Option<(int, int, int)> {
    match r {
        Some((a, b, c)) => Some((a as int, b as int, c as int)),
        None => None,
    }
}

/// What is known after the first `i` letters: the first and the last place.
spec fn placed(candidate: Seq<char>, query: Seq<char>, i: int, from: int, first: int) -> bool {
    let rest = letter_places(candidate, query.subrange(i, query.len() as int), from);
    &&& 0 < i <= query.len()
    &&& 0 <= first < from <= candidate.len()
    &&& from - first >= i
    &&& letter_places(candidate, query, 0) is None <==> rest is None
    &&& rest is Some ==> {
        let all = letter_places(candidate, query, 0)->0;
        &&& all.len() == i + rest->0.len()
        &&& all[0] == first
        &&& all[i - 1] == from - 1
        &&& all.subrange(i, all.len() as int) == rest->0
    }
}

/// Going from `i` letters placed to one more.
proof fn lemma_placed_step(candidate: Seq<char>, query: Seq<char>, i: int, from: int, first: int, p: int)
    requires
        placed(candidate, query, i, from, first),
        i < query.len(),
        p == find_char(candidate, query[i], from),
        p < candidate.len(),
    ensures
        placed(candidate, query, i + 1, p + 1, first),
{
    let q = query.subrange(i, query.len() as int);
    lemma_find_char(candidate, query[i], from);
    assert(q[0] == query[i]);
    assert(q.subrange(1, q.len() as int) =~= query.subrange(i + 1, query.len() as int));
    let rest = letter_places(candidate, query.subrange(i + 1, query.len() as int), p + 1);
    if rest is Some {
        let all = letter_places(candidate, query, 0)->0;
        let tail = all.subrange(i, all.len() as int);
        assert(tail == seq![p] + rest->0);
        assert(tail[0] == p);
        assert(all[i] == p);
        assert(all.subrange(i + 1, all.len() as int) =~= tail.subrange(1, tail.len() as int));
        assert(tail.subrange(1, tail.len() as int) =~= rest->0);
    }
}

proof fn lemma_placed_first(candidate: Seq<char>, query: Seq<char>, p: int)
    requires
        query.len() > 0,
        p == find_char(candidate, query[0], 0),
        p < candidate.len(),
    ensures
        placed(candidate, query, 1, p + 1, p),
{
    lemma_find_char(candidate, query[0], 0);
    let rest = letter_places(candidate, query.subrange(1, query.len() as int), p + 1);
    if rest is Some {
        let all = letter_places(candidate, query, 0)->0;
        assert(all == seq![p] + rest->0);
        assert(all.subrange(1, all.len() as int) =~= rest->0);
    }
}

/// How well a query's letters match a candidate's.
pub fn rank_letters(candidate: &[char], query: &[char]) -> (r: Option<(usize, usize, usize)>)
    ensures
        rank_ints(r) == letters_rank(candidate@, query@),
{
    let n = candidate.len();
    let count = query.len();
    if count == 0 {
        return Some((0, 0, n));
    }
    let first = find(candidate, query[0], 0);
    if first == n {
        return None;
    }
    let mut from: usize = first + 1;
    let mut i: usize = 1;
    proof {
        lemma_placed_first(candidate@, query@, first as int);
    }
    while i < count
        invariant
            n == candidate@.len(),
            count == query@.len(),
            i <= count,
            from <= n,
            placed(candidate@, query@, i as int, from as int, first as int),
        decreases count - i,
    {
        let p = find(candidate, query[i], from);
        if p == n {
            assert(query@.subrange(i as int, count as int)[0] == query@[i as int]);
            return None;
        }
        proof {
            lemma_placed_step(candidate@, query@, i as int, from as int, first as int, p as int);
        }
        from = p + 1;
        i += 1;
    }
    proof {
        assert(query@.subrange(i as int, count as int).len() == 0);
        let all = letter_places(candidate@, query@, 0)->0;
        assert(all.last() == from - 1);
    }
    Some((from - first - count, first, n))
}

/// How well a query matches a candidate, letters in either case.
pub fn fuzzy_rank(candidate: &str, query: &str) -> (r: Option<(usize, usize, usize)>)
    ensures
        rank_ints(r) == letters_rank(lower(candidate@), lower(query@)),
{
    let c = lowercase(candidate);
    let q = lowercase(query);
    let c = chars_of(c.as_str());
    let q = chars_of(q.as_str());
    rank_letters(&c, &q)
}

/// How well an entry matches a query: by its name before by its whole path.
/// Less is better. Every entry matches the empty query.
pub open spec fn rank_of(entry: FoundView, query: Seq<char>) -> Option<(int, int, int, int, int)> {
    if query.len() == 0 {
        Some(
            (
                2,
                0,
                0,
                encode_utf8(entry.path).len() as usize as int,
                if entry.is_dir { 1 } else { 0 },
            ),
        )
    } else {
        let by_name = match file_name(entry.path) {
            Some(name) => letters_rank(lower(name), lower(query)),
            None => None,
        };
        match (by_name, letters_rank(lower(entry.path), lower(query))) {
            (Some((gaps, start, len)), _) => Some((0, gaps, start, len, 0)),
            (None, Some((gaps, start, len))) => Some((1, gaps, start, len, 0)),
            (None, None) => None,
        }
    }
}

pub open spec fn rank_five(r: Option<(u8, usize, usize, usize, usize)>) -> Option<
    (int, int, int, int, int),
> {
    match r {
        Some((a, b, c, d, e)) => Some((a as int, b as int, c as int, d as int, e as int)),
        None => None,
    }
}

/// How well an entry matches a query.
pub fn entry_rank(entry: &Entry, query: &str) -> (r: Option<(u8, usize, usize, usize, usize)>)
    ensures
        rank_five(r) == rank_of(entry@, query@),
{
    if query.is_empty() {
        let len = entry.path.as_str().len();
        return Some((2, 0, 0, len, if entry.is_dir { 1 } else { 0 }));
    }
    if let Some(name) = last_name(entry.path.as_str()) {
        if let Some((gaps, start, len)) = fuzzy_rank(name.as_str(), query) {
            return Some((0, gaps, start, len, 0));
        }
    }
    match fuzzy_rank(entry.path.as_str(), query) {
        Some((gaps, start, len)) => Some((1, gaps, start, len, 0)),
        None => None,
    }
}

/// An entry whose name matches ranks before one that matches only by its path,
/// and that before none at all.
pub proof fn law_names_rank_before_paths(a: FoundView, b: FoundView, query: Seq<char>)
    requires
        query.len() > 0,
        file_name(a.path) matches Some(name) && letters_rank(lower(name), lower(query)) is Some,
        file_name(b.path) matches Some(name) ==> letters_rank(lower(name), lower(query)) is None,
        rank_of(b, query) is Some,
    ensures
        rank_of(a, query) matches Some(x) && x.0 < (rank_of(b, query)->0).0,
{
}

/// The entries among the first `n` that match, by their places.
pub open spec fn matching(entries: Seq<FoundView>, query: Seq<char>, n: int) -> Seq<usize>
    decreases n,
{
    if n <= 0 {
        Seq::empty()
    } else if rank_of(entries[n - 1], query) is Some {
        matching(entries, query, n - 1).push((n - 1) as usize)
    } else {
        matching(entries, query, n - 1)
    }
}

/// What an entry that matches is sorted by: its rank, then its path in lower case.
pub open spec fn match_key(entry: FoundView, query: Seq<char>) -> SortKeyView {
    let r = rank_of(entry, query)->0;
    SortKeyView {
        rank: (r.0 as usize, r.1 as usize, r.2 as usize, r.3 as usize, r.4 as usize),
        text: lower(entry.path),
    }
}

pub open spec fn match_keys(entries: Seq<FoundView>, query: Seq<char>, hits: Seq<usize>) -> Seq<
    SortKeyView,
> {
    hits.map_values(|i: usize| match_key(entries[i as int], query))
}

/// The order of `n` keys.
pub open spec fn ranking(keys: Seq<SortKeyView>, n: int) -> Seq<usize> {
    choose|order: Seq<usize>| sorted_places(keys, order, 0, n)
}

/// The places of the entries that match, the best first, and no more than are
/// shown.
pub open spec fn best_matches(entries: Seq<FoundView>, query: Seq<char>) -> Seq<usize> {
    let hits = matching(entries, query, entries.len() as int);
    let order = ranking(match_keys(entries, query, hits), hits.len() as int);
    let shown = if hits.len() < MAX_RESULTS {
        hits.len() as int
    } else {
        MAX_RESULTS as int
    };
    order.take(shown).map_values(|k: usize| hits[k as int])
}

proof fn lemma_matching(entries: Seq<FoundView>, query: Seq<char>, n: int)
    requires
        0 <= n <= entries.len() <= usize::MAX,
    ensures
        matching(entries, query, n).len() <= n,
        forall|k: int|
            0 <= k < matching(entries, query, n).len() ==> (#[trigger] matching(
                entries,
                query,
                n,
            )[k]) < n,
    decreases n,
{
    if n > 0 {
        lemma_matching(entries, query, n - 1);
    }
}

fn find_matches(entries: &Vec<Entry>, query: &str) -> (r: (Vec<usize>, Vec<SortKey>))
    ensures
        r.0@ == matching(found_view(entries@), query@, entries@.len() as int),
        keys_view(r.1@) == match_keys(found_view(entries@), query@, r.0@),
        forall|k: int|
            0 <= k < r.0@.len() ==> (#[trigger] r.0@[k]) < entries@.len() && (rank_of(
                found_view(entries@)[r.0@[k] as int],
                query@,
            ) matches Some(rank) && countable(rank)),
{
    let ghost all = found_view(entries@);
    let mut hits: Vec<usize> = Vec::new();
    let mut keys: Vec<SortKey> = Vec::new();
    let mut i: usize = 0;
    while i < entries.len()
        invariant
            i <= entries@.len(),
            all == found_view(entries@),
            hits@ == matching(all, query@, i as int),
            keys_view(keys@) =~= match_keys(all, query@, hits@),
            forall|k: int|
                0 <= k < hits@.len() ==> (#[trigger] hits@[k]) < i && (rank_of(
                    all[hits@[k] as int],
                    query@,
                ) matches Some(rank) && countable(rank)),
        decreases entries@.len() - i,
    {
        let entry = &entries[i];
        assert(all[i as int] == entry@);
        if let Some((a, b, c, d, e)) = entry_rank(entry, query) {
            let text = lowercase(entry.path.as_str());
            let key = SortKey { rank: (a as usize, b, c, d, e), text: chars_of(text.as_str()) };
            let ghost before = keys_view(keys@);
            let ghost was = hits@;
            hits.push(i);
            keys.push(key);
            assert(keys_view(keys@) =~= before.push(key@));
            assert(match_keys(all, query@, hits@) =~= match_keys(all, query@, was).push(
                match_key(all[i as int], query@),
            ));
            assert(key@ =~= match_key(all[i as int], query@));
        }
        i += 1;
    }
    (hits, keys)
}

/// How many entries match, and the places of the best.
pub fn find_best(entries: &Vec<Entry>, query: &str) -> (r: (usize, Vec<usize>))
    ensures
        r.0 == matching(found_view(entries@), query@, entries@.len() as int).len(),
        r.1@ == best_matches(found_view(entries@), query@),
        r.1@.len() <= MAX_RESULTS,
        r.1@.len() == (if r.0 < 500 {
            r.0 as int
        } else {
            500
        }),
        best_first(found_view(entries@), query@, r.1@),
{
    let total = entries.len();
    let (hits, keys) = find_matches(entries, query);
    let order = sorted_order(&keys);
    let ghost all = match_keys(found_view(entries@), query@, hits@);
    let count = hits.len();
    assert(keys@.len() == keys_view(keys@).len());
    let ghost chosen = ranking(all, count as int);
    proof {
        assert(sorted_places(all, chosen, 0, count as int));
        law_sorted_order_is_unique(all, order@, chosen, count as int);
    }
    let shown = if count < MAX_RESULTS {
        count
    } else {
        MAX_RESULTS
    };
    let mut out: Vec<usize> = Vec::new();
    let mut k: usize = 0;
    let ghost wanted = best_matches(found_view(entries@), query@);
    while k < shown
        invariant
            k <= shown <= count,
            count == hits@.len(),
            order@.len() == count,
            sorted_places(all, order@, 0, count as int),
            wanted == order@.take(shown as int).map_values(|k: usize| hits@[k as int]),
            out@ =~= wanted.take(k as int),
        decreases shown - k,
    {
        let place = order[k];
        out.push(hits[place]);
        assert(wanted[k as int] == hits@[place as int]);
        k += 1;
    }
    assert(wanted.take(k as int) =~= wanted);
    proof {
        let found = found_view(entries@);
        assert(found.len() == total);
        law_every_match_is_counted(found, query@, entries@.len() as int);
        assert forall|i: int, j: int| 0 <= i < j < count implies five_le(
            rank_of(found[hits@[#[trigger] order@[i] as int] as int], query@)->0,
            rank_of(found[hits@[#[trigger] order@[j] as int] as int], query@)->0,
        ) && hits@[order@[i] as int] != hits@[order@[j] as int] by {
            assert(precedes(all, order@[i] as int, order@[j] as int));
            let a = order@[i] as int;
            let b = order@[j] as int;
            assert(rank_of(found[hits@[a] as int], query@) is Some);
            assert(rank_of(found[hits@[b] as int], query@) is Some);
            lemma_key_order(found[hits@[a] as int], found[hits@[b] as int], query@, all, a, b);
            if a == b {
                law_order_is_irreflexive(all[a].text);
            }
        }
        assert forall|i: int| 0 <= i < out@.len() implies #[trigger] out@[i] < found.len() && rank_of(
            found[out@[i] as int],
            query@,
        ) is Some by {
            assert(out@[i] == hits@[order@[i] as int]);
        }
        assert forall|i: int, j: int| 0 <= i < j < out@.len() implies five_le(
            rank_of(found[#[trigger] out@[i] as int], query@)->0,
            rank_of(found[#[trigger] out@[j] as int], query@)->0,
        ) && out@[i] != out@[j] by {
            assert(out@[i] == hits@[order@[i] as int] && out@[j] == hits@[order@[j] as int]);
        }
        assert(out@.no_duplicates());
        assert forall|p: usize|
            p < found.len() && rank_of(#[trigger] found[p as int], query@) is Some implies out@.contains(
            p,
        ) || (out@.len() == 500 && forall|i: int|
            0 <= i < 500 ==> five_le(
                rank_of(found[#[trigger] out@[i] as int], query@)->0,
                rank_of(found[p as int], query@)->0,
            )) by {
            assert(hits@.contains(p));
            let h = choose|h: int| 0 <= h < hits@.len() && hits@[h] == p;
            let place = h as usize;
            assert(order@.contains(place));
            let o = choose|o: int| 0 <= o < order@.len() && order@[o] == place;
            if o < shown {
                assert(out@[o] == p);
            } else {
                assert forall|i: int| 0 <= i < 500 implies five_le(
                    rank_of(found[#[trigger] out@[i] as int], query@)->0,
                    rank_of(found[p as int], query@)->0,
                ) by {
                    assert(out@[i] == hits@[order@[i] as int]);
                }
            }
        }
    }
    (count, out)
}

// ---- The view ----

/// The state of the quick open view.
pub struct App {
    pub target: Option<Target>,
    pub root: String,
    pub query: String,
    pub entries: Vec<Entry>,
    /// The places of the shown entries, the best match first.
    pub results: Vec<usize>,
    pub match_count: usize,
    pub selected: usize,
    pub scroll: usize,
    /// How many results are drawn at once; at least one.
    pub page: usize,
    pub body: Rect,
    pub retry_button: Rect,
    pub mouse_pos: Option<(u16, u16)>,
    pub indexing: bool,
    pub error: Option<String>,
}

#[verifier::ext_equal]
pub struct AppView {
    pub target: Option<TargetView>,
    pub root: Seq<char>,
    pub query: Seq<char>,
    pub entries: Seq<FoundView>,
    pub results: Seq<usize>,
    pub match_count: int,
    pub selected: int,
    pub scroll: int,
    pub page: int,
    pub body: Rect,
    pub retry_button: Rect,
    pub mouse_pos: Option<(u16, u16)>,
    pub indexing: bool,
    pub error: Option<Seq<char>>,
}

impl View for App {
    type V = AppView;

    open spec fn view(&self) -> AppView {
        AppView {
            target: opt_target(self.target),
            root: self.root@,
            query: self.query@,
            entries: found_view(self.entries@),
            results: self.results@,
            match_count: self.match_count as int,
            selected: self.selected as int,
            scroll: self.scroll as int,
            page: self.page as int,
            body: self.body,
            retry_button: self.retry_button,
            mouse_pos: self.mouse_pos,
            indexing: self.indexing,
            error: opt_text(self.error),
        }
    }
}

/// What the view asks for.
pub enum Action {
    /// Stay open.
    Keep,
    Close,
    /// Look for the Explorer again.
    Retry,
    /// Ask the pane to open this; close where that succeeds.
    Send(String, OpenRequest),
}

#[verifier::ext_equal]
pub enum ActionView {
    Keep,
    Close,
    Retry,
    Send(Seq<char>, QuickView),
}

impl View for Action {
    type V = ActionView;

    open spec fn view(&self) -> ActionView {
        match *self {
            Action::Keep => ActionView::Keep,
            Action::Close => ActionView::Close,
            Action::Retry => ActionView::Retry,
            Action::Send(pane, r) => ActionView::Send(pane@, r@),
        }
    }
}

/// The state of a view that looks for the Explorer.
pub open spec fn opened(root: Seq<char>) -> AppView {
    AppView {
        target: None,
        root,
        query: Seq::empty(),
        entries: Seq::empty(),
        results: Seq::empty(),
        match_count: 0,
        selected: 0,
        scroll: 0,
        page: 1,
        body: no_rect(),
        retry_button: no_rect(),
        mouse_pos: None,
        indexing: false,
        error: None,
    }
}

/// The Explorer was found, and its files are listed next; or it was not.
pub open spec fn retried(a: AppView, found: Result<TargetView, Seq<char>>) -> AppView {
    match found {
        Ok(target) => AppView {
            target: Some(target),
            root: target.root,
            entries: Seq::empty(),
            results: Seq::empty(),
            match_count: 0,
            selected: 0,
            scroll: 0,
            indexing: true,
            error: None,
            ..a
        },
        Err(e) => AppView { target: None, indexing: false, error: Some(e), ..a },
    }
}

/// The results for what is typed, with the best selected.
pub open spec fn refreshed(a: AppView) -> AppView {
    let query = trim(a.query, Class::White);
    AppView {
        match_count: matching(a.entries, query, a.entries.len() as int).len() as int,
        results: best_matches(a.entries, query),
        selected: 0,
        scroll: 0,
        ..a
    }
}

/// The list of files came in.
pub open spec fn indexed(a: AppView, found: Result<Seq<FoundView>, Seq<char>>) -> AppView {
    if !a.indexing {
        a
    } else {
        match found {
            Ok(entries) => refreshed(AppView { indexing: false, entries, ..a }),
            Err(e) => AppView { indexing: false, error: Some(e), ..a },
        }
    }
}

/// The selection moved by `delta`, within the results, and the list scrolled
/// so that it is drawn.
pub open spec fn moved(a: AppView, delta: int) -> AppView {
    if a.results.len() == 0 {
        a
    } else {
        let max = a.results.len() - 1;
        let selected = if delta < 0 {
            monus(a.selected, -delta)
        } else if a.selected + delta < max {
            a.selected + delta
        } else {
            max
        };
        AppView {
            selected,
            scroll: if selected < a.scroll {
                selected
            } else if selected >= a.scroll + a.page {
                selected + 1 - a.page
            } else {
                a.scroll
            },
            ..a
        }
    }
}

/// The request for the selected result.
pub open spec fn activated(a: AppView) -> ActionView {
    match a.target {
        None => ActionView::Keep,
        Some(target) => if a.selected < a.results.len() && a.results[a.selected]
            < a.entries.len() {
            let entry = a.entries[a.results[a.selected] as int];
            ActionView::Send(
                target.pane_id,
                QuickView { root: target.root, path: entry.path, is_dir: entry.is_dir },
            )
        } else {
            ActionView::Keep
        },
    }
}

/// What a key does.
pub open spec fn key_step(a: AppView, key: Key) -> (AppView, ActionView) {
    let m = key.modifiers;
    if !key.press {
        (a, ActionView::Keep)
    } else if key.code == KeyCode::Esc || (key.code == KeyCode::Char('c') && m.control) {
        (a, ActionView::Close)
    } else if a.error is Some {
        (
            a,
            if key.code == KeyCode::Enter || key.code == KeyCode::Char('r') {
                ActionView::Retry
            } else {
                ActionView::Keep
            },
        )
    } else {
        match key.code {
            KeyCode::Up => (moved(a, -1), ActionView::Keep),
            KeyCode::Down => (moved(a, 1), ActionView::Keep),
            KeyCode::PageUp => (moved(a, -a.page), ActionView::Keep),
            KeyCode::PageDown => (moved(a, a.page), ActionView::Keep),
            KeyCode::Home => (moved(a, -(a.results.len() as int)), ActionView::Keep),
            KeyCode::End => (moved(a, a.results.len() as int), ActionView::Keep),
            KeyCode::Enter => if a.indexing {
                (a, ActionView::Keep)
            } else {
                (a, activated(a))
            },
            KeyCode::Backspace => (
                refreshed(
                    AppView {
                        query: if a.query.len() > 0 {
                            a.query.drop_last()
                        } else {
                            a.query
                        },
                        ..a
                    },
                ),
                ActionView::Keep,
            ),
            KeyCode::Char(c) => if c == 'u' && only_control(m) {
                (refreshed(AppView { query: Seq::empty(), ..a }), ActionView::Keep)
            } else if c == 'n' && only_control(m) {
                (moved(a, 1), ActionView::Keep)
            } else if c == 'p' && only_control(m) {
                (moved(a, -1), ActionView::Keep)
            } else if !m.control || m.alt {
                (refreshed(AppView { query: a.query.push(c), ..a }), ActionView::Keep)
            } else {
                (a, ActionView::Keep)
            },
            _ => (a, ActionView::Keep),
        }
    }
}

/// What a mouse event does.
pub open spec fn mouse_step(before: AppView, mouse: Mouse) -> (AppView, ActionView) {
    let a = AppView { mouse_pos: Some((mouse.column, mouse.row)), ..before };
    match mouse.kind {
        MouseKind::ScrollUp => (AppView { scroll: monus(a.scroll, 3), ..a }, ActionView::Keep),
        MouseKind::ScrollDown => {
            let max = monus(a.results.len() as int, a.page);
            (
                AppView { scroll: if a.scroll + 3 < max { a.scroll + 3 } else { max }, ..a },
                ActionView::Keep,
            )
        },
        MouseKind::LeftDown => if a.error is Some {
            if inside(a.retry_button, mouse.column, mouse.row) {
                (a, ActionView::Retry)
            } else {
                (a, ActionView::Keep)
            }
        } else if inside(a.body, mouse.column, mouse.row) {
            let index = a.scroll + (mouse.row - a.body.y);
            if index < a.results.len() {
                let b = AppView { selected: index, ..a };
                (b, activated(b))
            } else {
                (a, ActionView::Keep)
            }
        } else {
            (a, ActionView::Keep)
        },
        _ => (a, ActionView::Keep),
    }
}

/// The results are drawn in `area`: as many as it has rows.
pub open spec fn drawn_in(a: AppView, area: Rect) -> AppView {
    let page = if area.height > 1 {
        area.height as int
    } else {
        1
    };
    let max = monus(a.results.len() as int, page);
    AppView {
        page,
        scroll: if a.scroll < max {
            a.scroll
        } else {
            max
        },
        body: area,
        ..a
    }
}

fn text_popped(v: &String) -> (r: String)
    ensures
        r@ == (if v@.len() > 0 {
            v@.drop_last()
        } else {
            v@
        }),
{
    let c = chars_of(v.as_str());
    let n = c.len();
    let r = text_slice(&c, 0, if n > 0 { n - 1 } else { 0 });
    assert(r@ =~= (if v@.len() > 0 { v@.drop_last() } else { v@ }));
    r
}

impl App {
    /// The view before the Explorer was looked for.
    pub fn new(root: String) -> (r: App)
        ensures
            r@ == opened(root@),
    {
        let r = App {
            target: None,
            root,
            query: String::new(),
            entries: Vec::new(),
            results: Vec::new(),
            match_count: 0,
            selected: 0,
            scroll: 0,
            page: 1,
            body: Rect::default(),
            retry_button: Rect::default(),
            mouse_pos: None,
            indexing: false,
            error: None,
        };
        assert(r@.entries =~= Seq::empty());
        assert(r@ =~= opened(root@));
        r
    }

    /// Takes in where the Explorer is, or why it was not found. Where it was,
    /// its files are to be listed.
    pub fn retry(&mut self, found: Result<Target, String>)
        ensures
            final(self)@ == retried(
                old(self)@,
                (match found {
                    Ok(t) => Ok(t@),
                    Err(e) => Err(e@),
                }),
            ),
    {
        match found {
            Ok(target) => {
                self.root = target.root.clone();
                self.target = Some(target);
                self.start_index();
            },
            Err(e) => {
                self.target = None;
                self.indexing = false;
                self.error = Some(e);
            },
        }
    }

    /// Forgets the files, which are to be listed anew.
    pub fn start_index(&mut self)
        ensures
            final(self)@ == (AppView {
                entries: Seq::empty(),
                results: Seq::empty(),
                match_count: 0,
                selected: 0,
                scroll: 0,
                indexing: true,
                error: None,
                ..old(self)@
            }),
    {
        self.entries = Vec::new();
        self.results = Vec::new();
        self.match_count = 0;
        self.selected = 0;
        self.scroll = 0;
        self.error = None;
        self.indexing = true;
        assert(self@.entries =~= Seq::empty());
    }

    /// Takes in the list of files, or why there is none.
    pub fn poll_index(&mut self, found: Result<Vec<Entry>, String>)
        ensures
            final(self)@ == indexed(
                old(self)@,
                (match found {
                    Ok(v) => Ok(found_view(v@)),
                    Err(e) => Err(e@),
                }),
            ),
    {
        if !self.indexing {
            return;
        }
        self.indexing = false;
        match found {
            Ok(entries) => {
                self.entries = entries;
                self.refresh_results();
            },
            Err(e) => {
                self.error = Some(e);
            },
        }
    }

    /// Finds the results for what is typed.
    pub fn refresh_results(&mut self)
        ensures
            final(self)@ == refreshed(old(self)@),
    {
        let v = chars_of(self.query.as_str());
        let query = text_of(&trimmed(&v, Class::White));
        let (count, results) = find_best(&self.entries, query.as_str());
        self.match_count = count;
        self.results = results;
        self.selected = 0;
        self.scroll = 0;
    }

    fn move_selection(&mut self, forward: bool, n: usize)
        requires
            old(self).page >= 1,
        ensures
            final(self)@ == moved(old(self)@, if forward { n as int } else { -(n as int) }),
            final(self).page == old(self).page,
    {
        let count = self.results.len();
        if count == 0 {
            return;
        }
        let max = count - 1;
        let at = self.selected;
        let selected = if !forward && n > 0 {
            if at > n {
                at - n
            } else {
                0
            }
        } else if at < max && n < max - at {
            at + n
        } else {
            max
        };
        self.selected = selected;
        if selected < self.scroll {
            self.scroll = selected;
        } else if selected - self.scroll >= self.page {
            self.scroll = selected - self.page + 1;
        }
    }

    /// The request for the selected result.
    pub fn activate(&self) -> (r: Action)
        ensures
            r@ == activated(self@),
    {
        match &self.target {
            None => Action::Keep,
            Some(target) => {
                if self.selected >= self.results.len() {
                    return Action::Keep;
                }
                let place = self.results[self.selected];
                if place >= self.entries.len() {
                    return Action::Keep;
                }
                let entry = &self.entries[place];
                assert(found_view(self.entries@)[place as int] == entry@);
                Action::Send(
                    target.pane_id.clone(),
                    OpenRequest {
                        root: target.root.clone(),
                        path: entry.path.clone(),
                        is_dir: entry.is_dir,
                    },
                )
            },
        }
    }

    /// The request could not be sent.
    pub fn not_sent(&mut self, error: String)
        ensures
            final(self)@ == (AppView { error: Some(error@), ..old(self)@ }),
    {
        self.error = Some(error);
    }

    fn type_char(&mut self, c: char)
        ensures
            final(self)@ == refreshed(AppView { query: old(self)@.query.push(c), ..old(self)@ }),
            final(self).page == old(self).page,
    {
        let mut v = chars_of(self.query.as_str());
        v.push(c);
        self.query = text_of(&v);
        self.refresh_results();
    }

    pub fn on_key(&mut self, key: Key) -> (r: Action)
        requires
            old(self).page >= 1,
        ensures
            (final(self)@, r@) == key_step(old(self)@, key),
            final(self).page == old(self).page,
    {
        let m = key.modifiers;
        if !key.press {
            return Action::Keep;
        }
        if key.code == KeyCode::Esc || (key.code == KeyCode::Char('c') && m.control) {
            return Action::Close;
        }
        if self.error.is_some() {
            return if key.code == KeyCode::Enter || key.code == KeyCode::Char('r') {
                Action::Retry
            } else {
                Action::Keep
            };
        }
        match key.code {
            KeyCode::Up => self.move_selection(false, 1),
            KeyCode::Down => self.move_selection(true, 1),
            KeyCode::PageUp => self.move_selection(false, self.page),
            KeyCode::PageDown => self.move_selection(true, self.page),
            KeyCode::Home => self.move_selection(false, self.results.len()),
            KeyCode::End => self.move_selection(true, self.results.len()),
            KeyCode::Enter => {
                if !self.indexing {
                    return self.activate();
                }
            },
            KeyCode::Backspace => {
                self.query = text_popped(&self.query);
                self.refresh_results();
            },
            KeyCode::Char(c) => {
                if c == 'u' && m.only_control() {
                    self.query = String::new();
                    assert(self.query@ =~= Seq::empty());
                    self.refresh_results();
                } else if c == 'n' && m.only_control() {
                    self.move_selection(true, 1);
                } else if c == 'p' && m.only_control() {
                    self.move_selection(false, 1);
                } else if !m.control || m.alt {
                    self.type_char(c);
                }
            },
            _ => {},
        }
        Action::Keep
    }

    pub fn on_mouse(&mut self, mouse: Mouse) -> (r: Action)
        ensures
            (final(self)@, r@) == mouse_step(old(self)@, mouse),
            final(self).page == old(self).page,
    {
        self.mouse_pos = Some((mouse.column, mouse.row));
        match mouse.kind {
            MouseKind::ScrollUp => {
                self.scroll = if self.scroll > 3 {
                    self.scroll - 3
                } else {
                    0
                };
                Action::Keep
            },
            MouseKind::ScrollDown => {
                let count = self.results.len();
                let max = if count > self.page {
                    count - self.page
                } else {
                    0
                };
                self.scroll = if self.scroll < max && max - self.scroll > 3 {
                    self.scroll + 3
                } else {
                    max
                };
                Action::Keep
            },
            MouseKind::LeftDown => {
                if self.error.is_some() {
                    if hits(self.retry_button, mouse.column, mouse.row) {
                        Action::Retry
                    } else {
                        Action::Keep
                    }
                } else if hits(self.body, mouse.column, mouse.row) {
                    let offset = (mouse.row - self.body.y) as usize;
                    let count = self.results.len();
                    if offset < count && self.scroll < count - offset {
                        self.selected = self.scroll + offset;
                        self.activate()
                    } else {
                        Action::Keep
                    }
                } else {
                    Action::Keep
                }
            },
            _ => Action::Keep,
        }
    }

    /// The results are to be drawn in `area`.
    pub fn draw_results(&mut self, area: Rect)
        ensures
            final(self)@ == drawn_in(old(self)@, area),
            final(self).page >= 1,
    {
        self.page = if area.height > 1 {
            area.height as usize
        } else {
            1
        };
        let count = self.results.len();
        let max = if count > self.page {
            count - self.page
        } else {
            0
        };
        if self.scroll > max {
            self.scroll = max;
        }
        self.body = area;
    }

    /// No result is drawn: files are being listed.
    pub fn draw_indexing(&mut self)
        ensures
            final(self)@ == (AppView { body: no_rect(), ..old(self)@ }),
    {
        self.body = Rect::default();
    }

    /// An error is drawn in place of results, with a button in `row` to try
    /// again.
    pub fn draw_error(&mut self, row: Rect)
        requires
            row.x + row.width <= u16::MAX,
        ensures
            final(self)@ == (AppView {
                body: no_rect(),
                retry_button: button_in(row),
                ..old(self)@
            }),
    {
        self.body = Rect::default();
        self.retry_button = retry_button(row);
    }

    /// How many matches there are, in words.
    pub fn count_text(&self) -> (r: String)
        ensures
            r@ == count_words(self@),
    {
        if self.indexing {
            return "indexing".to_string();
        }
        let count = text_of(&digits_of(self.match_count));
        if self.match_count > self.results.len() {
            let shown = text_of(&digits_of(self.results.len()));
            cat3(count.as_str(), " matches · showing ", shown.as_str())
        } else {
            cat(count.as_str(), " matches")
        }
    }

    /// The next step to the line that says where is searched and how many were found, in
    /// `width` columns: the directory to cut, and then the line.
    pub fn draw_status(&self, width: u16, cuts: &Vec<String>) -> (r: RowStep)
        ensures
            r@ == status_step(self@.root, count_words(self@), width as int, texts(cuts@)),
    {
        assert(texts(cuts@).len() == cuts@.len());
        let count = self.count_text();
        let total = width as usize;
        let taken = text_width(count.as_str());
        if cuts.len() == 0 {
            return RowStep::Cut(self.root.clone(), take_off(take_off(total, taken), 3));
        }
        assert(texts(cuts@)[0] == cuts@[0]@);
        let gap = take_off(take_off(total, text_width(cuts[0].as_str())), taken);
        let mut blank: Vec<char> = Vec::new();
        push_spaces(&mut blank, gap);
        assert(blank@ =~= spaces(gap as nat));
        let mut spans: Vec<Span> = Vec::new();
        spans.push(Span { text: cuts[0].clone(), style: Style::default().dim() });
        spans.push(Span { text: text_of(&blank), style: Style::default() });
        spans.push(Span { text: count, style: Style::default().dim() });
        let line = Line { spans, style: Style::default() };
        let ghost dim = Style { dim: true, ..no_style() };
        assert(line@.spans =~= seq![
            SpanView { text: texts(cuts@)[0], style: dim },
            SpanView { text: spaces(gap as nat), style: no_style() },
            SpanView { text: count_words(self@), style: dim },
        ]);
        RowStep::Done(line)
    }
}

/// How many matches there are, in words.
pub open spec fn count_words(a: AppView) -> Seq<char> {
    if a.indexing {
        "indexing"@
    } else if a.match_count > a.results.len() {
        digits(a.match_count as nat) + " matches · showing "@ + digits(a.results.len())
    } else {
        digits(a.match_count as nat) + " matches"@
    }
}

/// Whatever is done with keys, the selection stays on a result where there is
/// one.
pub proof fn law_selection_stays_on_a_result(a: AppView, delta: int)
    requires
        a.results.len() > 0 ==> 0 <= a.selected < a.results.len(),
        a.page >= 1,
        0 <= a.scroll,
    ensures
        moved(a, delta).results == a.results,
        a.results.len() > 0 ==> 0 <= moved(a, delta).selected < a.results.len(),
        a.results.len() > 0 ==> moved(a, delta).scroll <= moved(a, delta).selected < moved(
            a,
            delta,
        ).scroll + a.page,
        0 <= moved(a, delta).scroll,
{
}

// ---- Drawing ----

/// The box that says why there are no results: a third down `area` and no
/// wider than 52 columns.
pub open spec fn popup_in(area: Rect) -> Rect {
    let width: int = if area.width < 20 {
        20
    } else if area.width > 52 {
        52
    } else {
        area.width as int
    };
    let height: int = if area.height < 6 {
        area.height as int
    } else {
        6
    };
    Rect {
        x: (area.x + monus(area.width as int, width) / 2) as u16,
        y: (area.y + monus(area.height as int, height) / 3) as u16,
        width: width as u16,
        height: height as u16,
    }
}

/// The box that says why there are no results.
pub fn error_popup(area: Rect) -> (r: Rect)
    requires
        area.x + area.width <= u16::MAX,
        area.y + area.height <= u16::MAX,
    ensures
        r == popup_in(area),
{
    let width: u16 = if area.width < 20 {
        20
    } else if area.width > 52 {
        52
    } else {
        area.width
    };
    let height: u16 = if area.height < 6 {
        area.height
    } else {
        6
    };
    let dx: u16 = if area.width > width {
        (area.width - width) / 2
    } else {
        0
    };
    let dy: u16 = if area.height > height {
        (area.height - height) / 3
    } else {
        0
    };
    Rect { x: area.x + dx, y: area.y + dy, width, height }
}

/// Where the button to try again stands in its row: in the middle.
pub open spec fn button_in(row: Rect) -> Rect {
    let width = width_of(" Retry "@) as u16;
    Rect {
        x: (row.x + monus(row.width as int, width as int) / 2) as u16,
        y: row.y,
        width,
        height: 1,
    }
}

fn retry_button(row: Rect) -> (r: Rect)
    requires
        row.x + row.width <= u16::MAX,
    ensures
        r == button_in(row),
{
    let width = text_width(" Retry ") as u16;
    let dx: u16 = if row.width > width {
        (row.width - width) / 2
    } else {
        0
    };
    Rect { x: row.x + dx, y: row.y, width, height: 1 }
}

/// The title of the box that says why there are no results.
pub open spec fn error_words(error: Seq<char>) -> Seq<char> {
    if crate::text::find_seq(error, "ripgrep"@, 0) >= 0 || crate::text::find_seq(error, "`rg`"@, 0)
        >= 0 {
        "Quick Open needs ripgrep (`rg`)."@
    } else {
        "Quick Open is unavailable."@
    }
}

/// The title of the box that says why there are no results.
pub fn error_title(error: &str) -> (r: &'static str)
    ensures
        r@ == error_words(error@),
{
    let v = chars_of(error);
    let a = chars_of("ripgrep");
    let b = chars_of("`rg`");
    if crate::text::find_text(&v, &a, 0).is_some() || crate::text::find_text(&v, &b, 0).is_some() {
        "Quick Open needs ripgrep (`rg`)."
    } else {
        "Quick Open is unavailable."
    }
}

/// The name that a result shows, and the folder it lies in.
pub open spec fn shown_parts(entry: FoundView) -> (Seq<char>, Seq<char>) {
    let name = match file_name(entry.path) {
        Some(name) => name,
        None => entry.path,
    };
    (
        if entry.is_dir {
            name + "/"@
        } else {
            name
        },
        if folders_above(entry.path).len() > 0 {
            folders_above(entry.path)[0]
        } else {
            Seq::empty()
        },
    )
}

/// The name that a result shows, and the folder it lies in.
pub fn result_parts(entry: &Entry) -> (r: (String, String))
    ensures
        (r.0@, r.1@) == shown_parts(entry@),
{
    let name = match last_name(entry.path.as_str()) {
        Some(name) => name,
        None => entry.path.clone(),
    };
    let shown = if entry.is_dir {
        cat(name.as_str(), "/")
    } else {
        name
    };
    let v = chars_of(entry.path.as_str());
    let mut folders: Vec<Vec<char>> = Vec::new();
    assert(pieces(folders@) =~= Seq::empty());
    push_folders(&mut folders, &v);
    assert(pieces(folders@) =~= folders_above(entry.path@));
    assert(folders@.len() == pieces(folders@).len());
    let parent = if folders.len() > 0 {
        assert(pieces(folders@)[0] == folders@[0]@);
        text_of(&folders[0])
    } else {
        String::new()
    };
    assert(parent@ =~= shown_parts(entry@).1);
    (shown, parent)
}

/// How many columns a result's name may take: three fifths of what the icon
/// leaves, and one at least.
pub open spec fn name_columns(width: int, icon_width: int) -> int {
    let n = monus(width, icon_width + 1) * 3 / 5;
    if n > 1 {
        n
    } else {
        1
    }
}

/// How many columns a result's name may take in a row of `width`.
fn name_room(width: u16, icon: &str) -> (r: usize)
    ensures
        r == name_columns(width as int, width_of(icon@) as int),
{
    let w = text_width(icon);
    let total = width as usize;
    let available = if w < total {
        total - w - 1
    } else {
        0
    };
    let n = available * 3 / 5;
    if n > 1 {
        n
    } else {
        1
    }
}

/// How many columns are left for the folder after the icon, the name and the
/// space between.
fn parent_room(width: u16, icon: &str, name: &str) -> (r: usize)
    ensures
        r == parent_columns(width as int, width_of(icon@) as int, width_of(name@) as int),
{
    let w = text_width(icon);
    let total = width as usize;
    let available = if w < total {
        total - w - 1
    } else {
        0
    };
    let n = text_width(name);
    let left = if available > n {
        available - n
    } else {
        0
    };
    if left > 2 {
        left - 2
    } else {
        0
    }
}

/// How many columns are left for the folder after the icon, the name and the space
/// between.
pub open spec fn parent_columns(width: int, icon_width: int, name_width: int) -> int {
    monus(monus(monus(width, icon_width + 1), name_width), 2)
}

/// A result's row: the icon, the name in bold, and the folder dimmed where any of it fits.
pub open spec fn result_row(
    icon: SpanView,
    name: Seq<char>,
    parent: Seq<char>,
    style: Style,
) -> LineView {
    let head = seq![
        icon,
        SpanView { text: " "@, style: no_style() },
        SpanView { text: name, style: Style { bold: true, ..no_style() } },
    ];
    LineView {
        spans: if parent.len() == 0 {
            head
        } else {
            head.push(SpanView { text: "  "@, style: no_style() }).push(
                SpanView { text: parent, style: Style { dim: true, ..no_style() } },
            )
        },
        style,
    }
}

/// How a result's row is marked: where it is selected, else where the mouse is on it.
pub open spec fn result_style(selected: bool, hover: Option<Color>) -> Style {
    if selected {
        bg_style(Color::DarkGray)
    } else {
        match hover {
            Some(color) => bg_style(color),
            None => no_style(),
        }
    }
}

/// The next step to a result's row in `width` columns, where `cuts` are the texts of the
/// row that were cut so far.
pub open spec fn result_step(
    entry: FoundView,
    icon: SpanView,
    selected: bool,
    hover: Option<Color>,
    width: int,
    cuts: Seq<Seq<char>>,
) -> RowStepView {
    let (name, parent) = shown_parts(entry);
    let icon_width = width_of(icon.text) as int;
    if cuts.len() == 0 {
        RowStepView::Cut(name, name_columns(width, icon_width))
    } else if cuts.len() == 1 {
        RowStepView::Cut(parent, parent_columns(width, icon_width, width_of(cuts[0]) as int))
    } else {
        RowStepView::Done(result_row(icon, cuts[0], cuts[1], result_style(selected, hover)))
    }
}

/// The next step to a result's row: its name and then its folder to cut, and then the row.
/// `hover` is the color of a row that the mouse is on.
pub fn result_item(
    entry: &Entry,
    icon: Span,
    selected: bool,
    hover: Option<Color>,
    width: u16,
    cuts: &Vec<String>,
) -> (r: RowStep)
    ensures
        r@ == result_step(entry@, icon@, selected, hover, width as int, texts(cuts@)),
{
    assert(texts(cuts@).len() == cuts@.len());
    if cuts.len() == 0 {
        let (name, _) = result_parts(entry);
        return RowStep::Cut(name, name_room(width, icon.text.as_str()));
    }
    assert(texts(cuts@)[0] == cuts@[0]@);
    if cuts.len() == 1 {
        let (_, parent) = result_parts(entry);
        return RowStep::Cut(parent, parent_room(width, icon.text.as_str(), cuts[0].as_str()));
    }
    assert(texts(cuts@)[1] == cuts@[1]@);
    let mut spans: Vec<Span> = Vec::new();
    spans.push(icon);
    spans.push(Span { text: " ".to_string(), style: Style::default() });
    spans.push(Span { text: cuts[0].clone(), style: Style::default().bold() });
    if !cuts[1].as_str().is_empty() {
        spans.push(Span { text: "  ".to_string(), style: Style::default() });
        spans.push(Span { text: cuts[1].clone(), style: Style::default().dim() });
    }
    let style = if selected {
        Style::default().bg(Color::DarkGray)
    } else {
        match hover {
            Some(color) => Style::default().bg(color),
            None => Style::default(),
        }
    };
    let line = Line { spans, style };
    assert(line@ =~= result_row(
        icon@,
        texts(cuts@)[0],
        texts(cuts@)[1],
        result_style(selected, hover),
    ));
    RowStep::Done(line)
}

/// The next step to the line that says where is searched and how many were found: the
/// directory, as far as it fits, and the count at the end.
pub open spec fn status_step(
    root: Seq<char>,
    count: Seq<char>,
    width: int,
    cuts: Seq<Seq<char>>,
) -> RowStepView {
    let dim = Style { dim: true, ..no_style() };
    if cuts.len() == 0 {
        RowStepView::Cut(root, monus(width, width_of(count) as int + 3))
    } else {
        let gap = monus(monus(width, width_of(cuts[0]) as int), width_of(count) as int);
        RowStepView::Done(
            LineView {
                spans: seq![
                    SpanView { text: cuts[0], style: dim },
                    SpanView { text: spaces(gap as nat), style: no_style() },
                    SpanView { text: count, style: dim },
                ],
                style: no_style(),
            },
        )
    }
}

} // verus!
