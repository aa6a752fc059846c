//! Text as sequences of characters: searching, splitting, trimming, numbers
//! and ordering.

use vstd::prelude::*;

verus! {

/// `String::push` appends one character.
pub assume_specification[ String::push ](s: &mut String, c: char)
    ensures
        final(s)@ == old(s)@.push(c),
;

/// `==` on string slices compares their characters.
pub assume_specification[ <str as PartialEq>::eq ](a: &str, b: &str) -> (r: bool)
    ensures
        r == (a@ == b@),
;

/// Whether two texts are the same.
pub fn eq_text(a: &str, b: &str) -> (r: bool)
    ensures
        r == (a@ == b@),
{
    a.eq(b)
}

/// The lower-case form of a text, as `str::to_lowercase` gives it.
pub uninterp spec fn lower(text: Seq<char>) -> Seq<char>;

/// `str::to_lowercase`: the result is a function of the text alone.
#[verifier::external_body]
pub(crate) fn lowercase(s: &str) -> (r: String)
    ensures
        r@ == lower(s@),
{
    s.to_lowercase()
}

/// The views of a sequence of strings.
pub open spec fn texts(v: Seq<String>) -> Seq<Seq<char>> {
    v.map_values(|s: String| s@)
}

/// The views of a sequence of character vectors.
pub open spec fn pieces(v: Seq<Vec<char>>) -> Seq<Seq<char>> {
    v.map_values(|s: Vec<char>| s@)
}

/// The view of an optional string.
pub open spec fn opt_text(v: Option<String>) -> Option<Seq<char>> {
    match v {
        Some(s) => Some(s@),
        None => None,
    }
}

/// The characters of `s`, in order.
pub fn chars_of(s: &str) -> (r: Vec<char>)
    ensures
        r@ == s@,
{
    let mut out: Vec<char> = Vec::new();
    for c in it: s.chars()
        invariant
            it.seq() == s@,
            out@ == s@.take(it.index() as int),
    {
        out.push(c);
        assert(s@.take(it.index() as int + 1) =~= s@.take(it.index() as int).push(c));
    }
    assert(s@.take(s@.len() as int) =~= s@);
    out
}

/// The string of the characters `v`.
pub fn text_of(v: &[char]) -> (r: String)
    ensures
        r@ == v@,
{
    let mut out = String::new();
    let mut i: usize = 0;
    while i < v.len()
        invariant
            i <= v@.len(),
            out@ == v@.take(i as int),
        decreases v@.len() - i,
    {
        out.push(v[i]);
        i += 1;
        assert(v@.take(i as int) =~= v@.take(i - 1).push(v@[i - 1]));
    }
    assert(v@.take(i as int) =~= v@);
    out
}

/// A copy of the characters `v[from..to]`.
pub fn slice_of(v: &[char], from: usize, to: usize) -> (r: Vec<char>)
    requires
        from <= to <= v@.len(),
    ensures
        r@ == v@.subrange(from as int, to as int),
{
    let mut out: Vec<char> = Vec::new();
    let mut i: usize = from;
    while i < to
        invariant
            from <= i <= to <= v@.len(),
            out@ == v@.subrange(from as int, i as int),
        decreases to - i,
    {
        out.push(v[i]);
        i += 1;
        assert(v@.subrange(from as int, i as int) =~= v@.subrange(from as int, i - 1).push(v@[i - 1]));
    }
    out
}

/// The string of the characters `v[from..to]`.
pub fn text_slice(v: &[char], from: usize, to: usize) -> (r: String)
    requires
        from <= to <= v@.len(),
    ensures
        r@ == v@.subrange(from as int, to as int),
{
    let piece = slice_of(v, from, to);
    text_of(&piece)
}

/// Appends a copy of `more` to `out`.
pub fn push_all(out: &mut Vec<char>, more: &[char])
    ensures
        final(out)@ == old(out)@ + more@,
{
    let mut i: usize = 0;
    while i < more.len()
        invariant
            i <= more@.len(),
            out@ == old(out)@ + more@.take(i as int),
        decreases more@.len() - i,
    {
        out.push(more[i]);
        i += 1;
        assert(old(out)@ + more@.take(i as int) =~= (old(out)@ + more@.take(i - 1)).push(more@[i - 1]));
    }
    assert(more@.take(i as int) =~= more@);
}

/// Appends the characters of `more` to `out`.
pub fn push_text(out: &mut Vec<char>, more: &str)
    ensures
        final(out)@ == old(out)@ + more@,
{
    let extra = chars_of(more);
    push_all(out, &extra);
}

/// Whether two slices hold the same characters.
pub fn same(a: &[char], b: &[char]) -> (r: bool)
    ensures
        r == (a@ == b@),
{
    if a.len() != b.len() {
        return false;
    }
    let mut i: usize = 0;
    while i < a.len()
        invariant
            a@.len() == b@.len(),
            i <= a@.len(),
            forall|k: int| 0 <= k < i ==> a@[k] == b@[k],
        decreases a@.len() - i,
    {
        if a[i] != b[i] {
            return false;
        }
        i += 1;
    }
    assert(a@ =~= b@);
    true
}

// ---- Searching ----

/// The first position at or after `from` that holds `c`, or the length.
pub open spec fn find_char(s: Seq<char>, c: char, from: int) -> int
    decreases s.len() - from,
{
    if from >= s.len() {
        s.len() as int
    } else if s[from] == c {
        from
    } else {
        find_char(s, c, from + 1)
    }
}

/// What [`find_char`] finds: nothing before it is `c`, and it is `c` or the end.
pub proof fn lemma_find_char(s: Seq<char>, c: char, from: int)
    requires
        0 <= from <= s.len(),
    ensures
        from <= find_char(s, c, from) <= s.len(),
        find_char(s, c, from) < s.len() ==> s[find_char(s, c, from)] == c,
        forall|k: int| from <= k < find_char(s, c, from) ==> s[k] != c,
    decreases s.len() - from,
{
    if from < s.len() && s[from] != c {
        lemma_find_char(s, c, from + 1);
    }
}

/// The position that [`find_char`] names is determined by its two properties.
pub proof fn lemma_find_char_unique(s: Seq<char>, c: char, from: int, at: int)
    requires
        0 <= from <= at <= s.len(),
        at < s.len() ==> s[at] == c,
        forall|k: int| from <= k < at ==> s[k] != c,
    ensures
        find_char(s, c, from) == at,
    decreases at - from,
{
    if from < at {
        lemma_find_char_unique(s, c, from + 1, at);
    }
}

pub fn find(v: &[char], c: char, from: usize) -> (r: usize)
    requires
        from <= v@.len(),
    ensures
        r == find_char(v@, c, from as int),
        from <= r <= v@.len(),
{
    let mut i: usize = from;
    while i < v.len() && v[i] != c
        invariant
            from <= i <= v@.len(),
            forall|k: int| from <= k < i ==> v@[k] != c,
        decreases v@.len() - i,
    {
        i += 1;
    }
    proof {
        lemma_find_char_unique(v@, c, from as int, i as int);
    }
    i
}

/// Whether `s` holds `c`.
pub open spec fn has_char(s: Seq<char>, c: char) -> bool {
    exists|i: int| 0 <= i < s.len() && s[i] == c
}

/// The last position before `to` that holds `c`, or -1.
pub open spec fn rfind_char(s: Seq<char>, c: char, to: int) -> int
    decreases to,
{
    if to <= 0 {
        -1
    } else if s[to - 1] == c {
        to - 1
    } else {
        rfind_char(s, c, to - 1)
    }
}

pub proof fn lemma_rfind_char(s: Seq<char>, c: char, to: int)
    requires
        0 <= to <= s.len(),
    ensures
        -1 <= rfind_char(s, c, to) < to || rfind_char(s, c, to) == -1,
        rfind_char(s, c, to) >= 0 ==> s[rfind_char(s, c, to)] == c,
        forall|k: int| rfind_char(s, c, to) < k < to ==> s[k] != c,
    decreases to,
{
    if to > 0 && s[to - 1] != c {
        lemma_rfind_char(s, c, to - 1);
    }
}

pub fn rfind(v: &[char], c: char) -> (r: Option<usize>)
    ensures
        match r {
            Some(i) => rfind_char(v@, c, v@.len() as int) == i && i < v@.len() && v@[i as int] == c,
            None => rfind_char(v@, c, v@.len() as int) == -1,
        },
{
    let mut i: usize = v.len();
    while i > 0
        invariant
            i <= v@.len(),
            rfind_char(v@, c, v@.len() as int) == rfind_char(v@, c, i as int),
        decreases i,
    {
        if v[i - 1] == c {
            return Some(i - 1);
        }
        i -= 1;
    }
    None
}

/// Whether `p` occurs in `s` at position `at`.
pub open spec fn occurs_at(s: Seq<char>, p: Seq<char>, at: int) -> bool {
    0 <= at && at + p.len() <= s.len() && s.subrange(at, at + p.len()) == p
}

/// The first position at or after `from` where `p` occurs, or -1.
pub open spec fn find_seq(s: Seq<char>, p: Seq<char>, from: int) -> int
    decreases s.len() + 1 - from,
{
    if from > s.len() {
        -1
    } else if occurs_at(s, p, from) {
        from
    } else {
        find_seq(s, p, from + 1)
    }
}

pub proof fn lemma_find_seq(s: Seq<char>, p: Seq<char>, from: int)
    requires
        0 <= from,
    ensures
        find_seq(s, p, from) == -1 || (from <= find_seq(s, p, from) && occurs_at(
            s,
            p,
            find_seq(s, p, from),
        )),
        find_seq(s, p, from) == -1 ==> forall|k: int| from <= k ==> !occurs_at(s, p, k),
        find_seq(s, p, from) >= 0 ==> forall|k: int|
            from <= k < find_seq(s, p, from) ==> !occurs_at(s, p, k),
    decreases s.len() + 1 - from,
{
    if from <= s.len() && !occurs_at(s, p, from) {
        lemma_find_seq(s, p, from + 1);
    }
}

pub fn at(v: &[char], p: &[char], pos: usize) -> (r: bool)
    ensures
        r == occurs_at(v@, p@, pos as int),
{
    let total: usize = v.len();
    if total < pos || total - pos < p.len() {
        return false;
    }
    let mut i: usize = 0;
    while i < p.len()
        invariant
            total == v@.len(),
            pos + p@.len() <= total,
            i <= p@.len(),
            forall|k: int| 0 <= k < i ==> v@[pos + k] == p@[k],
        decreases p@.len() - i,
    {
        if v[pos + i] != p[i] {
            assert(v@.subrange(pos as int, pos + p@.len())[i as int] != p@[i as int]);
            return false;
        }
        i += 1;
    }
    assert(v@.subrange(pos as int, pos + p@.len()) =~= p@);
    true
}

pub fn find_text(v: &[char], p: &[char], from: usize) -> (r: Option<usize>)
    ensures
        match r {
            Some(i) => find_seq(v@, p@, from as int) == i && from <= i && i + p@.len() <= v@.len(),
            None => find_seq(v@, p@, from as int) == -1,
        },
{
    let mut i: usize = from;
    while i <= v.len()
        invariant
            from <= i,
            i <= v@.len() + 1 || i == from,
            find_seq(v@, p@, from as int) == find_seq(v@, p@, i as int),
        decreases v@.len() + 1 - i,
    {
        if at(v, p, i) {
            return Some(i);
        }
        if i == v.len() {
            assert(find_seq(v@, p@, i + 1) == -1);
            return None;
        }
        i += 1;
    }
    None
}

/// Whether `s` begins with `p`.
pub open spec fn has_prefix(s: Seq<char>, p: Seq<char>) -> bool {
    occurs_at(s, p, 0)
}

/// Whether `s` ends with `p`.
pub open spec fn has_suffix(s: Seq<char>, p: Seq<char>) -> bool {
    occurs_at(s, p, s.len() - p.len())
}

/// What is left of `s` after its first `n` characters.
pub open spec fn after(s: Seq<char>, n: int) -> Seq<char> {
    s.subrange(n, s.len() as int)
}

pub fn starts_with(v: &[char], p: &[char]) -> (r: bool)
    ensures
        r == has_prefix(v@, p@),
        r ==> p@.len() <= v@.len(),
{
    at(v, p, 0)
}

pub fn starts_with_str(v: &[char], p: &str) -> (r: bool)
    ensures
        r == has_prefix(v@, p@),
        r ==> p@.len() <= v@.len(),
{
    let q = chars_of(p);
    at(v, &q, 0)
}

pub fn ends_with(v: &[char], p: &[char]) -> (r: bool)
    ensures
        r == has_suffix(v@, p@),
        r ==> p@.len() <= v@.len(),
{
    if v.len() < p.len() {
        return false;
    }
    at(v, p, v.len() - p.len())
}

// ---- Splitting ----

/// The pieces of `s` from `start` on, between occurrences of `sep`.
pub open spec fn split_from(s: Seq<char>, sep: char, start: int) -> Seq<Seq<char>>
    decreases s.len() - start,
{
    if start > s.len() || start < 0 {
        Seq::empty()
    } else {
        let i = find_char(s, sep, start);
        if i >= s.len() || i < start {
            seq![s.subrange(start, s.len() as int)]
        } else {
            seq![s.subrange(start, i)] + split_from(s, sep, i + 1)
        }
    }
}

/// The pieces of `s` between occurrences of `sep`: one more than there are
/// separators.
pub open spec fn split(s: Seq<char>, sep: char) -> Seq<Seq<char>> {
    split_from(s, sep, 0)
}

pub fn split_on(v: &[char], sep: char) -> (r: Vec<Vec<char>>)
    ensures
        pieces(r@) == split(v@, sep),
        r@.len() >= 1,
{
    let mut out: Vec<Vec<char>> = Vec::new();
    let mut start: usize = 0;
    loop
        invariant
            start <= v@.len(),
            pieces(out@) + split_from(v@, sep, start as int) =~= split(v@, sep),
        decreases v@.len() - start,
    {
        let i = find(v, sep, start);
        let piece = slice_of(v, start, i);
        let ghost before = out@;
        out.push(piece);
        assert(pieces(out@) =~= pieces(before).push(v@.subrange(start as int, i as int)));
        if i == v.len() {
            assert(pieces(out@) =~= pieces(before) + split_from(v@, sep, start as int));
            return out;
        }
        assert(pieces(out@) + split_from(v@, sep, i + 1) =~= pieces(before) + split_from(
            v@,
            sep,
            start as int,
        ));
        start = i + 1;
    }
}

/// `parts` with `sep` between each two.
pub open spec fn join(parts: Seq<Seq<char>>, sep: Seq<char>) -> Seq<char>
    decreases parts.len(),
{
    if parts.len() == 0 {
        Seq::empty()
    } else if parts.len() == 1 {
        parts[0]
    } else {
        parts[0] + sep + join(parts.subrange(1, parts.len() as int), sep)
    }
}

/// Joining one part more.
pub proof fn lemma_join_push(parts: Seq<Seq<char>>, sep: Seq<char>, p: Seq<char>)
    ensures
        join(parts.push(p), sep) == (if parts.len() == 0 {
            p
        } else {
            join(parts, sep) + sep + p
        }),
    decreases parts.len(),
{
    let all = parts.push(p);
    if parts.len() > 0 {
        let rest = parts.subrange(1, parts.len() as int);
        assert(all.subrange(1, all.len() as int) =~= rest.push(p));
        lemma_join_push(rest, sep, p);
        if parts.len() == 1 {
            assert(rest =~= Seq::empty());
        } else {
            assert(parts[0] + sep + (join(rest, sep) + sep + p) =~= (parts[0] + sep + join(
                rest,
                sep,
            )) + sep + p);
        }
    }
}

proof fn lemma_split_from_nonempty(s: Seq<char>, sep: char, start: int)
    requires
        0 <= start <= s.len(),
    ensures
        split_from(s, sep, start).len() >= 1,
{
    lemma_find_char(s, sep, start);
}

proof fn lemma_join_split_from(s: Seq<char>, sep: char, start: int)
    requires
        0 <= start <= s.len(),
    ensures
        join(split_from(s, sep, start), seq![sep]) == s.subrange(start, s.len() as int),
    decreases s.len() - start,
{
    lemma_find_char(s, sep, start);
    let i = find_char(s, sep, start);
    if i < s.len() {
        lemma_join_split_from(s, sep, i + 1);
        lemma_split_from_nonempty(s, sep, i + 1);
        let rest = split_from(s, sep, i + 1);
        let all = split_from(s, sep, start);
        assert(all.subrange(1, all.len() as int) =~= rest);
        assert(s.subrange(start, s.len() as int) =~= s.subrange(start, i) + seq![sep] + s.subrange(
            i + 1,
            s.len() as int,
        ));
    }
}

/// Joining the pieces of a split with its separator gives the text back.
pub proof fn law_join_of_split(s: Seq<char>, sep: char)
    ensures
        join(split(s, sep), seq![sep]) == s,
{
    lemma_join_split_from(s, sep, 0);
    assert(s.subrange(0, s.len() as int) =~= s);
}

/// No piece of a split holds the separator.
pub proof fn law_split_pieces_lack_separator(s: Seq<char>, sep: char)
    ensures
        forall|k: int| 0 <= k < split(s, sep).len() ==> !has_char(#[trigger] split(s, sep)[k], sep),
{
    lemma_split_from_lacks(s, sep, 0);
}

proof fn lemma_split_from_lacks(s: Seq<char>, sep: char, start: int)
    requires
        0 <= start <= s.len(),
    ensures
        forall|k: int|
            0 <= k < split_from(s, sep, start).len() ==> !has_char(
                #[trigger] split_from(s, sep, start)[k],
                sep,
            ),
    decreases s.len() - start,
{
    lemma_find_char(s, sep, start);
    let i = find_char(s, sep, start);
    if i < s.len() {
        lemma_split_from_lacks(s, sep, i + 1);
        let rest = split_from(s, sep, i + 1);
        assert forall|k: int| 0 <= k < split_from(s, sep, start).len() implies !has_char(
            #[trigger] split_from(s, sep, start)[k],
            sep,
        ) by {
            if k > 0 {
                assert(split_from(s, sep, start)[k] == rest[k - 1]);
            }
        }
    }
}

/// A text without the separator is its own only piece.
pub proof fn lemma_split_whole(s: Seq<char>, sep: char)
    requires
        !has_char(s, sep),
    ensures
        split(s, sep) == seq![s],
{
    lemma_find_char(s, sep, 0);
    assert(s.subrange(0, s.len() as int) =~= s);
}

/// A separator-free head before a separator is the first piece.
pub proof fn lemma_split_head(head: Seq<char>, sep: char, tail: Seq<char>)
    requires
        !has_char(head, sep),
    ensures
        split(head + seq![sep] + tail, sep) == seq![head] + split(tail, sep),
{
    let s = head + seq![sep] + tail;
    lemma_find_char_unique(s, sep, 0, head.len() as int);
    assert(s.subrange(0, head.len() as int) =~= head);
    assert(s.subrange(head.len() as int + 1, s.len() as int) =~= tail);
    lemma_split_shift(s, sep, head.len() as int + 1, tail);
}

/// Splitting from a position on is splitting what follows it.
proof fn lemma_split_shift(s: Seq<char>, sep: char, start: int, tail: Seq<char>)
    requires
        0 <= start <= s.len(),
        tail == s.subrange(start, s.len() as int),
    ensures
        split_from(s, sep, start) == split(tail, sep),
{
    lemma_split_shift_from(s, sep, start, tail, 0);
}

proof fn lemma_split_shift_from(s: Seq<char>, sep: char, start: int, tail: Seq<char>, k: int)
    requires
        0 <= start <= s.len(),
        tail == s.subrange(start, s.len() as int),
        0 <= k <= tail.len(),
    ensures
        split_from(s, sep, start + k) == split_from(tail, sep, k),
    decreases tail.len() - k,
{
    lemma_find_char(tail, sep, k);
    let i = find_char(tail, sep, k);
    assert forall|j: int| start + k <= j < start + i implies s[j] != sep by {
        assert(tail[j - start] != sep);
    }
    lemma_find_char_unique(s, sep, start + k, start + i);
    assert(s.subrange(start + k, start + i) =~= tail.subrange(k, i));
    if i < tail.len() {
        lemma_split_shift_from(s, sep, start, tail, i + 1);
    } else {
        assert(s.subrange(start + k, s.len() as int) =~= tail.subrange(k, tail.len() as int));
    }
}

/// Splitting what was joined gives the parts back, where none holds the separator.
pub proof fn lemma_split_join(parts: Seq<Seq<char>>, sep: char)
    requires
        parts.len() > 0,
        forall|k: int| 0 <= k < parts.len() ==> !has_char(#[trigger] parts[k], sep),
    ensures
        split(join(parts, seq![sep]), sep) == parts,
    decreases parts.len(),
{
    if parts.len() == 1 {
        lemma_split_whole(parts[0], sep);
        assert(seq![parts[0]] =~= parts);
    } else {
        let rest = parts.subrange(1, parts.len() as int);
        assert forall|k: int| 0 <= k < rest.len() implies !has_char(#[trigger] rest[k], sep) by {
            assert(rest[k] == parts[k + 1]);
        }
        lemma_split_join(rest, sep);
        lemma_split_head(parts[0], sep, join(rest, seq![sep]));
        assert(seq![parts[0]] + rest =~= parts);
    }
}

/// The last piece is what follows the last separator.
pub proof fn lemma_split_last(s: Seq<char>, sep: char, tail: Seq<char>, head: Seq<char>)
    requires
        s == head + seq![sep] + tail,
        !has_char(tail, sep),
    ensures
        split(s, sep).len() > 1,
        split(s, sep).last() == tail,
{
    lemma_split_last_from(s, sep, head.len() as int, 0);
    assert(s.subrange(head.len() as int + 1, s.len() as int) =~= tail);
}

proof fn lemma_split_last_from(s: Seq<char>, sep: char, at: int, start: int)
    requires
        0 <= start <= at < s.len(),
        s[at] == sep,
        !has_char(s.subrange(at + 1, s.len() as int), sep),
    ensures
        split_from(s, sep, start).len() > 1,
        split_from(s, sep, start).last() == s.subrange(at + 1, s.len() as int),
    decreases at - start,
{
    lemma_find_char(s, sep, start);
    let i = find_char(s, sep, start);
    let tail = s.subrange(at + 1, s.len() as int);
    assert forall|k: int| at < k < s.len() implies s[k] != sep by {
        assert(tail[k - at - 1] == s[k]);
    }
    lemma_split_from_nonempty(s, sep, i + 1);
    if i < at {
        lemma_split_last_from(s, sep, at, i + 1);
    } else {
        assert(i == at);
        lemma_find_char_unique(s, sep, at + 1, s.len() as int);
    }
}

/// A text that ends in the separator is split apart from what follows it.
pub proof fn lemma_split_after(a: Seq<char>, b: Seq<char>, sep: char)
    requires
        a.len() > 0,
        a.last() == sep,
    ensures
        split(a, sep).len() > 0,
        split(a, sep).last().len() == 0,
        split(a + b, sep) == split(a, sep).drop_last() + split(b, sep),
{
    lemma_split_after_from(a, b, sep, 0);
}

proof fn lemma_split_after_from(a: Seq<char>, b: Seq<char>, sep: char, start: int)
    requires
        0 <= start <= a.len(),
        a.len() > 0,
        a.last() == sep,
    ensures
        split_from(a, sep, start).len() > 0,
        split_from(a, sep, start).last().len() == 0,
        split_from(a + b, sep, start) == split_from(a, sep, start).drop_last() + split(b, sep),
    decreases a.len() - start,
{
    let s = a + b;
    lemma_find_char(a, sep, start);
    if start == a.len() {
        assert(s.subrange(start, s.len() as int) =~= b);
        lemma_split_shift(s, sep, start, b);
        assert(split_from(a, sep, start) =~= seq![a.subrange(start, start)]);
        assert(split_from(a, sep, start).drop_last() + split(b, sep) =~= split(b, sep));
    } else {
        let i = find_char(a, sep, start);
        assert(i < a.len()) by {
            if i >= a.len() {
                assert(a[a.len() - 1] != sep);
            }
        }
        assert forall|j: int| start <= j < i implies s[j] != sep by {
            assert(a[j] != sep);
        }
        assert(s[i] == a[i]);
        lemma_find_char_unique(s, sep, start, i);
        lemma_split_after_from(a, b, sep, i + 1);
        assert(s.subrange(start, i) =~= a.subrange(start, i));
        let rest = split_from(a, sep, i + 1);
        assert(split_from(a, sep, start) =~= seq![a.subrange(start, i)] + rest);
        assert((seq![a.subrange(start, i)] + rest).drop_last() =~= seq![a.subrange(start, i)]
            + rest.drop_last());
        assert(split_from(s, sep, start) =~= split_from(a, sep, start).drop_last() + split(b, sep));
    }
}

/// Splitting joined separator-free parts gives the parts back.
pub proof fn law_split_of_join(parts: Seq<Seq<char>>, sep: char)
    requires
        parts.len() >= 1,
        forall|k: int| 0 <= k < parts.len() ==> !has_char(#[trigger] parts[k], sep),
    ensures
        split(join(parts, seq![sep]), sep) == parts,
    decreases parts.len(),
{
    if parts.len() == 1 {
        lemma_split_whole(parts[0], sep);
        assert(seq![parts[0]] =~= parts);
    } else {
        let rest = parts.subrange(1, parts.len() as int);
        assert forall|k: int| 0 <= k < rest.len() implies !has_char(#[trigger] rest[k], sep) by {
            assert(rest[k] == parts[k + 1]);
        }
        law_split_of_join(rest, sep);
        lemma_split_head(parts[0], sep, join(rest, seq![sep]));
        assert(seq![parts[0]] + rest =~= parts);
    }
}

// ---- Joining ----

/// `a` followed by `b`.
pub fn cat(a: &str, b: &str) -> (r: String)
    ensures
        r@ == a@ + b@,
{
    let mut v = chars_of(a);
    push_text(&mut v, b);
    text_of(&v)
}

/// `a`, `b` and `c`, in that order.
pub fn cat3(a: &str, b: &str, c: &str) -> (r: String)
    ensures
        r@ == a@ + b@ + c@,
{
    let mut v = chars_of(a);
    push_text(&mut v, b);
    push_text(&mut v, c);
    text_of(&v)
}

// ---- Lists without repeats ----

/// `s` with only the first occurrence of each text kept.
pub open spec fn dedupe(s: Seq<Seq<char>>) -> Seq<Seq<char>>
    decreases s.len(),
{
    if s.len() == 0 {
        Seq::empty()
    } else {
        let kept = dedupe(s.drop_last());
        if kept.contains(s.last()) {
            kept
        } else {
            kept.push(s.last())
        }
    }
}

/// A deduped list holds each text once, and the same texts as before.
pub proof fn law_dedupe(s: Seq<Seq<char>>)
    ensures
        dedupe(s).no_duplicates(),
        forall|x: Seq<char>| #[trigger] dedupe(s).contains(x) <==> s.contains(x),
    decreases s.len(),
{
    if s.len() > 0 {
        law_dedupe(s.drop_last());
        let kept = dedupe(s.drop_last());
        let all = dedupe(s);
        assert forall|x: Seq<char>| #[trigger] all.contains(x) <==> s.contains(x) by {
            if s.contains(x) {
                let i = choose|i: int| 0 <= i < s.len() && s[i] == x;
                if i < s.len() - 1 {
                    assert(s.drop_last()[i] == x);
                    assert(kept.contains(x));
                    let j = choose|j: int| 0 <= j < kept.len() && kept[j] == x;
                    assert(all[j] == x);
                } else if !kept.contains(x) {
                    assert(all[kept.len() as int] == x);
                }
            }
            if all.contains(x) {
                let j = choose|j: int| 0 <= j < all.len() && all[j] == x;
                if j < kept.len() {
                    assert(kept[j] == x);
                    assert(kept.contains(x));
                    assert(s.drop_last().contains(x));
                    let i = choose|i: int| 0 <= i < s.drop_last().len() && s.drop_last()[i] == x;
                    assert(s[i] == x);
                } else {
                    assert(s[s.len() - 1] == x);
                }
            }
        }
    }
}

/// Whether `list` holds `s`.
pub fn holds(list: &Vec<String>, s: &str) -> (r: bool)
    ensures
        r == texts(list@).contains(s@),
{
    let mut i: usize = 0;
    while i < list.len()
        invariant
            i <= list@.len(),
            forall|k: int| 0 <= k < i ==> list@[k]@ != s@,
        decreases list@.len() - i,
    {
        if eq_text(list[i].as_str(), s) {
            assert(texts(list@)[i as int] == s@);
            return true;
        }
        i += 1;
    }
    assert forall|k: int| 0 <= k < texts(list@).len() implies texts(list@)[k] != s@ by {
        assert(texts(list@)[k] == list@[k]@);
    }
    false
}

/// Appends `s` unless `list` already holds it.
pub fn push_new(list: &mut Vec<String>, s: &str)
    ensures
        texts(final(list)@) == (if texts(old(list)@).contains(s@) {
            texts(old(list)@)
        } else {
            texts(old(list)@).push(s@)
        }),
{
    if !holds(list, s) {
        let copy = s.to_string();
        list.push(copy);
        assert(texts(list@) =~= texts(old(list)@).push(s@));
    }
}

} // verus!
