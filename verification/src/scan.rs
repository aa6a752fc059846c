//! Trimming, words, lines, decimal numbers, byte lengths and the order of texts.

use vstd::prelude::*;

use crate::text::{after, pieces, slice_of, split, split_on};

verus! {

/// A set of characters that trimming and splitting go by.
#[derive(Clone, Copy)]
pub enum Class {
    /// Unicode white space.
    White,
    One(char),
    Either(char, char),
}

/// Whether `c` has Unicode's `White_Space` property.
pub open spec fn is_white(c: char) -> bool {
    let n = c as u32;
    9 <= n <= 13 || n == 32 || n == 0x85 || n == 0xa0 || n == 0x1680 || 0x2000 <= n <= 0x200a || n
        == 0x2028 || n == 0x2029 || n == 0x202f || n == 0x205f || n == 0x3000
}

/// Whether `c` belongs to the class.
pub open spec fn in_class(class: Class, c: char) -> bool {
    match class {
        Class::White => is_white(c),
        Class::One(a) => c == a,
        Class::Either(a, b) => c == a || c == b,
    }
}

pub fn is_space(c: char) -> (r: bool)
    ensures
        r == is_white(c),
{
    let n = c as u32;
    (9 <= n && n <= 13) || n == 32 || n == 0x85 || n == 0xa0 || n == 0x1680 || (0x2000 <= n && n
        <= 0x200a) || n == 0x2028 || n == 0x2029 || n == 0x202f || n == 0x205f || n == 0x3000
}

pub fn class_has(class: Class, c: char) -> (r: bool)
    ensures
        r == in_class(class, c),
{
    match class {
        Class::White => is_space(c),
        Class::One(a) => c == a,
        Class::Either(a, b) => c == a || c == b,
    }
}

// ---- Trimming ----

/// The first position at or after `from` outside the class, or the length.
pub open spec fn skip(s: Seq<char>, class: Class, from: int) -> int
    decreases s.len() - from,
{
    if from >= s.len() {
        s.len() as int
    } else if in_class(class, s[from]) {
        skip(s, class, from + 1)
    } else {
        from
    }
}

/// The first position at or after `from` inside the class, or the length.
pub open spec fn until(s: Seq<char>, class: Class, from: int) -> int
    decreases s.len() - from,
{
    if from >= s.len() {
        s.len() as int
    } else if in_class(class, s[from]) {
        from
    } else {
        until(s, class, from + 1)
    }
}

/// One past the last position before `to` outside the class, or 0.
pub open spec fn skip_back(s: Seq<char>, class: Class, to: int) -> int
    decreases to,
{
    if to <= 0 {
        0
    } else if in_class(class, s[to - 1]) {
        skip_back(s, class, to - 1)
    } else {
        to
    }
}

pub proof fn lemma_skip_range(s: Seq<char>, class: Class, from: int)
    requires
        0 <= from <= s.len(),
    ensures
        from <= skip(s, class, from) <= s.len(),
        skip(s, class, from) < s.len() ==> !in_class(class, s[skip(s, class, from)]),
        forall|k: int| from <= k < skip(s, class, from) ==> in_class(class, s[k]),
    decreases s.len() - from,
{
    if from < s.len() && in_class(class, s[from]) {
        lemma_skip_range(s, class, from + 1);
    }
}

pub proof fn lemma_until_range(s: Seq<char>, class: Class, from: int)
    requires
        0 <= from <= s.len(),
    ensures
        from <= until(s, class, from) <= s.len(),
        from < s.len() && !in_class(class, s[from]) ==> from < until(s, class, from),
        forall|k: int| from <= k < until(s, class, from) ==> !in_class(class, s[k]),
    decreases s.len() - from,
{
    if from < s.len() && !in_class(class, s[from]) {
        lemma_until_range(s, class, from + 1);
    }
}

pub proof fn lemma_skip_back_range(s: Seq<char>, class: Class, to: int)
    requires
        0 <= to <= s.len(),
    ensures
        0 <= skip_back(s, class, to) <= to,
        skip_back(s, class, to) > 0 ==> !in_class(class, s[skip_back(s, class, to) - 1]),
        forall|k: int| skip_back(s, class, to) <= k < to ==> in_class(class, s[k]),
    decreases to,
{
    if to > 0 && in_class(class, s[to - 1]) {
        lemma_skip_back_range(s, class, to - 1);
    }
}

/// `s` without the class's characters at its start.
pub open spec fn trim_start(s: Seq<char>, class: Class) -> Seq<char> {
    s.subrange(skip(s, class, 0), s.len() as int)
}

/// `s` without the class's characters at its end.
pub open spec fn trim_end(s: Seq<char>, class: Class) -> Seq<char> {
    s.subrange(0, skip_back(s, class, s.len() as int))
}

/// `s` without the class's characters at either end.
pub open spec fn trim(s: Seq<char>, class: Class) -> Seq<char> {
    trim_end(trim_start(s, class), class)
}

pub fn skip_class(v: &[char], class: Class, from: usize) -> (r: usize)
    requires
        from <= v@.len(),
    ensures
        r == skip(v@, class, from as int),
        from <= r <= v@.len(),
{
    let mut i: usize = from;
    while i < v.len()
        invariant
            from <= i <= v@.len(),
            skip(v@, class, from as int) == skip(v@, class, i as int),
        decreases v@.len() - i,
    {
        if !class_has(class, v[i]) {
            return i;
        }
        i += 1;
    }
    i
}

pub fn until_class(v: &[char], class: Class, from: usize) -> (r: usize)
    requires
        from <= v@.len(),
    ensures
        r == until(v@, class, from as int),
        from <= r <= v@.len(),
{
    let mut i: usize = from;
    while i < v.len()
        invariant
            from <= i <= v@.len(),
            until(v@, class, from as int) == until(v@, class, i as int),
        decreases v@.len() - i,
    {
        if class_has(class, v[i]) {
            return i;
        }
        i += 1;
    }
    i
}

pub fn trimmed_end(v: &[char], class: Class) -> (r: Vec<char>)
    ensures
        r@ == trim_end(v@, class),
{
    let mut i: usize = v.len();
    while i > 0 && class_has(class, v[i - 1])
        invariant
            i <= v@.len(),
            skip_back(v@, class, v@.len() as int) == skip_back(v@, class, i as int),
        decreases i,
    {
        i -= 1;
    }
    slice_of(v, 0, i)
}

pub fn trimmed_start(v: &[char], class: Class) -> (r: Vec<char>)
    ensures
        r@ == trim_start(v@, class),
{
    let i = skip_class(v, class, 0);
    slice_of(v, i, v.len())
}

pub fn trimmed(v: &[char], class: Class) -> (r: Vec<char>)
    ensures
        r@ == trim(v@, class),
{
    let front = trimmed_start(v, class);
    trimmed_end(&front, class)
}

// ---- Words and lines ----

/// The maximal runs of characters other than white space from `from` on.
pub open spec fn words_from(s: Seq<char>, from: int) -> Seq<Seq<char>>
    decreases s.len() - from,
{
    if from < 0 || from > s.len() {
        Seq::empty()
    } else {
        let a = skip(s, Class::White, from);
        let b = until(s, Class::White, a);
        if a < from || b <= a || b > s.len() {
            Seq::empty()
        } else {
            seq![s.subrange(a, b)] + words_from(s, b)
        }
    }
}

/// The maximal runs of characters other than white space.
pub open spec fn words(s: Seq<char>) -> Seq<Seq<char>> {
    words_from(s, 0)
}

pub fn words_of(v: &[char]) -> (r: Vec<Vec<char>>)
    ensures
        pieces(r@) == words(v@),
{
    let mut out: Vec<Vec<char>> = Vec::new();
    let mut from: usize = 0;
    loop
        invariant
            from <= v@.len(),
            pieces(out@) + words_from(v@, from as int) =~= words(v@),
        decreases v@.len() - from,
    {
        let a = skip_class(v, Class::White, from);
        if a == v.len() {
            assert(pieces(out@) + words_from(v@, from as int) =~= pieces(out@));
            return out;
        }
        let b = until_class(v, Class::White, a);
        proof {
            lemma_skip_range(v@, Class::White, from as int);
            lemma_until_range(v@, Class::White, a as int);
        }
        let piece = slice_of(v, a, b);
        let ghost before = out@;
        out.push(piece);
        assert(pieces(out@) =~= pieces(before).push(v@.subrange(a as int, b as int)));
        assert(pieces(out@) + words_from(v@, b as int) =~= pieces(before) + words_from(
            v@,
            from as int,
        ));
        from = b;
    }
}

/// `line` without one carriage return at its end.
pub open spec fn strip_return(line: Seq<char>) -> Seq<char> {
    if line.len() > 0 && line.last() == '\r' {
        line.drop_last()
    } else {
        line
    }
}

/// The lines of `s`: the pieces before each line feed, each without one
/// carriage return at its end, and what follows the last line feed unless it
/// is empty.
pub open spec fn lines(s: Seq<char>) -> Seq<Seq<char>> {
    let parts = split(s, '\n');
    let ended = parts.drop_last().map_values(|line: Seq<char>| strip_return(line));
    if parts.last().len() == 0 {
        ended
    } else {
        ended.push(parts.last())
    }
}

pub fn lines_of(v: &[char]) -> (r: Vec<Vec<char>>)
    ensures
        pieces(r@) == lines(v@),
{
    let parts = split_on(v, '\n');
    let mut out: Vec<Vec<char>> = Vec::new();
    let mut i: usize = 0;
    let ghost ended = pieces(parts@).drop_last().map_values(|line: Seq<char>| strip_return(line));
    while i < parts.len() - 1
        invariant
            parts@.len() >= 1,
            i <= parts@.len() - 1,
            ended == pieces(parts@).drop_last().map_values(|line: Seq<char>| strip_return(line)),
            pieces(out@) =~= ended.take(i as int),
        decreases parts@.len() - i,
    {
        let part = &parts[i];
        let n = part.len();
        let end = if n > 0 && part[n - 1] == '\r' { n - 1 } else { n };
        let line = slice_of(part, 0, end);
        assert(line@ =~= strip_return(part@));
        let ghost before = out@;
        out.push(line);
        assert(pieces(out@) =~= pieces(before).push(strip_return(part@)));
        assert(ended.take(i + 1) =~= ended.take(i as int).push(ended[i as int]));
        i += 1;
    }
    let last = &parts[parts.len() - 1];
    assert(ended.take(i as int) =~= ended);
    if last.len() > 0 {
        let line = slice_of(last, 0, last.len());
        assert(line@ =~= last@);
        let ghost before = out@;
        out.push(line);
        assert(pieces(out@) =~= pieces(before).push(last@));
    }
    out
}

// ---- Decimal numbers ----

pub open spec fn is_digit(c: char) -> bool {
    '0' <= c && c <= '9'
}

pub open spec fn digit(c: char) -> nat {
    (c as u32 - '0' as u32) as nat
}

pub open spec fn all_digits(s: Seq<char>) -> bool {
    forall|i: int| 0 <= i < s.len() ==> is_digit(#[trigger] s[i])
}

/// The number that a run of digits writes in base ten.
pub open spec fn value(s: Seq<char>) -> nat
    decreases s.len(),
{
    if s.len() == 0 {
        0
    } else {
        value(s.drop_last()) * 10 + digit(s.last())
    }
}

/// The number that `s` writes: digits after at most one plus sign, and no
/// more than `max`.
pub open spec fn decimal(s: Seq<char>, max: nat) -> Option<nat> {
    let t = if s.len() > 0 && s[0] == '+' {
        after(s, 1)
    } else {
        s
    };
    if t.len() == 0 || !all_digits(t) || value(t) > max {
        None
    } else {
        Some(value(t))
    }
}

/// `decimal` up to the largest `usize`.
pub open spec fn number(s: Seq<char>) -> Option<usize> {
    match decimal(s, usize::MAX as nat) {
        Some(n) => Some(n as usize),
        None => None,
    }
}

proof fn lemma_value_grows(s: Seq<char>, k: int)
    requires
        0 <= k <= s.len(),
        all_digits(s),
    ensures
        value(s.take(k)) <= value(s),
    decreases s.len() - k,
{
    if k < s.len() {
        let t = s.take(k + 1);
        lemma_value_grows(s, k + 1);
        assert(t.drop_last() =~= s.take(k));
        assert(value(t) == value(s.take(k)) * 10 + digit(s[k]));
    } else {
        assert(s.take(k) =~= s);
    }
}

pub fn parse_number(v: &[char]) -> (r: Option<usize>)
    ensures
        r == number(v@),
{
    let start: usize = if v.len() > 0 && v[0] == '+' { 1 } else { 0 };
    let ghost t = v@.subrange(start as int, v@.len() as int);
    assert(start == 0 ==> t =~= v@);
    if start == v.len() {
        return None;
    }
    let mut total: usize = 0;
    let mut i: usize = start;
    while i < v.len()
        invariant
            start <= i <= v@.len(),
            t == v@.subrange(start as int, v@.len() as int),
            forall|k: int| start <= k < i ==> is_digit(v@[k]),
            total == value(t.take(i - start)),
            number(v@) == (if t.len() == 0 || !all_digits(t) || value(t) > usize::MAX {
                None::<usize>
            } else {
                Some(value(t) as usize)
            }),
        decreases v@.len() - i,
    {
        let c = v[i];
        if !('0' <= c && c <= '9') {
            assert(!is_digit(t[i - start]));
            return None;
        }
        let d = (c as u32 - '0' as u32) as usize;
        proof {
            assert(t.take(i - start + 1).drop_last() =~= t.take(i - start));
            assert(value(t.take(i - start + 1)) == total * 10 + d);
            if all_digits(t) {
                lemma_value_grows(t, i - start + 1);
            }
        }
        if total > (usize::MAX - d) / 10 {
            return None;
        }
        total = total * 10 + d;
        i += 1;
    }
    assert(t.take(i - start) =~= t);
    assert(all_digits(t)) by {
        assert forall|k: int| 0 <= k < t.len() implies is_digit(#[trigger] t[k]) by {
            assert(t[k] == v@[start + k]);
        }
    }
    Some(total)
}

/// [`decimal`] up to the largest `u64`.
pub fn parse_u64(v: &[char]) -> (r: Option<u64>)
    ensures
        match r {
            Some(n) => decimal(v@, u64::MAX as nat) == Some(n as nat),
            None => decimal(v@, u64::MAX as nat) == None::<nat>,
        },
{
    let start: usize = if v.len() > 0 && v[0] == '+' { 1 } else { 0 };
    let ghost t = v@.subrange(start as int, v@.len() as int);
    assert(start == 0 ==> t =~= v@);
    if start == v.len() {
        return None;
    }
    let mut total: u64 = 0;
    let mut i: usize = start;
    while i < v.len()
        invariant
            start <= i <= v@.len(),
            t == v@.subrange(start as int, v@.len() as int),
            forall|k: int| start <= k < i ==> is_digit(v@[k]),
            total == value(t.take(i - start)),
            decimal(v@, u64::MAX as nat) == (if t.len() == 0 || !all_digits(t) || value(t)
                > u64::MAX {
                None::<nat>
            } else {
                Some(value(t))
            }),
        decreases v@.len() - i,
    {
        let c = v[i];
        if !('0' <= c && c <= '9') {
            assert(!is_digit(t[i - start]));
            return None;
        }
        let d = (c as u32 - '0' as u32) as u64;
        proof {
            assert(t.take(i - start + 1).drop_last() =~= t.take(i - start));
            assert(value(t.take(i - start + 1)) == total * 10 + d);
            if all_digits(t) {
                lemma_value_grows(t, i - start + 1);
            }
        }
        if total > (u64::MAX - d) / 10 {
            return None;
        }
        total = total * 10 + d;
        i += 1;
    }
    assert(t.take(i - start) =~= t);
    assert(all_digits(t)) by {
        assert forall|k: int| 0 <= k < t.len() implies is_digit(#[trigger] t[k]) by {
            assert(t[k] == v@[start + k]);
        }
    }
    Some(total)
}

/// The digit that writes `d`.
pub open spec fn digit_char(d: nat) -> char {
    (('0' as u32) + d) as char
}

/// The decimal digits of `n`, without leading zeros.
pub open spec fn digits(n: nat) -> Seq<char>
    decreases n,
{
    if n < 10 {
        seq![digit_char(n)]
    } else {
        digits(n / 10).push(digit_char(n % 10))
    }
}

pub fn digits_of(n: usize) -> (r: Vec<char>)
    ensures
        r@ == digits(n as nat),
    decreases n,
{
    if n < 10 {
        let mut out: Vec<char> = Vec::new();
        out.push((48u8 + n as u8) as char);
        assert(out@ =~= digits(n as nat));
        out
    } else {
        let mut out = digits_of(n / 10);
        out.push((48u8 + (n % 10) as u8) as char);
        out
    }
}

/// The decimal digits of `n` read back as `n`.
pub proof fn law_digits_read_back(n: nat)
    ensures
        digits(n).len() >= 1,
        all_digits(digits(n)),
        value(digits(n)) == n,
        decimal(digits(n), n) == Some(n),
    decreases n,
{
    if n < 10 {
        assert(digits(n).drop_last() =~= Seq::empty());
        assert(value(digits(n).drop_last()) == 0);
    } else {
        law_digits_read_back(n / 10);
        assert(digits(n).drop_last() =~= digits(n / 10));
    }
    assert(is_digit(digits(n)[0]));
}

// ---- Byte lengths ----

/// How many bytes `c` takes in UTF-8.
pub open spec fn utf8_width(c: char) -> nat {
    let n = c as u32;
    if n < 0x80 {
        1
    } else if n < 0x800 {
        2
    } else if n < 0x10000 {
        3
    } else {
        4
    }
}

/// How many bytes `s` takes in UTF-8.
pub open spec fn utf8_len(s: Seq<char>) -> nat
    decreases s.len(),
{
    if s.len() == 0 {
        0
    } else {
        utf8_len(s.drop_last()) + utf8_width(s.last())
    }
}

pub fn char_bytes(c: char) -> (r: usize)
    ensures
        r == utf8_width(c),
        1 <= r <= 4,
{
    let n = c as u32;
    if n < 0x80 {
        1
    } else if n < 0x800 {
        2
    } else if n < 0x10000 {
        3
    } else {
        4
    }
}

pub proof fn lemma_utf8_len_bounds(s: Seq<char>)
    ensures
        s.len() <= utf8_len(s) <= 4 * s.len(),
    decreases s.len(),
{
    if s.len() > 0 {
        lemma_utf8_len_bounds(s.drop_last());
    }
}

pub proof fn lemma_utf8_len_push(s: Seq<char>, c: char)
    ensures
        utf8_len(s.push(c)) == utf8_len(s) + utf8_width(c),
{
    assert(s.push(c).drop_last() =~= s);
}

pub proof fn lemma_utf8_len_add(a: Seq<char>, b: Seq<char>)
    ensures
        utf8_len(a + b) == utf8_len(a) + utf8_len(b),
    decreases b.len(),
{
    if b.len() == 0 {
        assert(a + b =~= a);
    } else {
        assert((a + b).drop_last() =~= a + b.drop_last());
        lemma_utf8_len_add(a, b.drop_last());
    }
}

// ---- Order ----

/// Whether `a` comes before `b` in the order of their characters.
pub open spec fn lex_less(a: Seq<char>, b: Seq<char>) -> bool
    decreases a.len(),
{
    if b.len() == 0 {
        false
    } else if a.len() == 0 {
        true
    } else if a[0] != b[0] {
        a[0] < b[0]
    } else {
        lex_less(after(a, 1), after(b, 1))
    }
}

pub proof fn law_order_is_irreflexive(a: Seq<char>)
    ensures
        !lex_less(a, a),
    decreases a.len(),
{
    if a.len() > 0 {
        law_order_is_irreflexive(after(a, 1));
    }
}

pub proof fn law_order_is_total(a: Seq<char>, b: Seq<char>)
    ensures
        lex_less(a, b) || lex_less(b, a) || a == b,
    decreases a.len(),
{
    if a.len() == 0 || b.len() == 0 {
        if a.len() == b.len() {
            assert(a =~= b);
        }
    } else if a[0] == b[0] {
        law_order_is_total(after(a, 1), after(b, 1));
        if after(a, 1) == after(b, 1) {
            assert(a =~= seq![a[0]] + after(a, 1));
            assert(b =~= seq![b[0]] + after(b, 1));
        }
    }
}

pub proof fn law_order_is_transitive(a: Seq<char>, b: Seq<char>, c: Seq<char>)
    requires
        lex_less(a, b),
        lex_less(b, c),
    ensures
        lex_less(a, c),
    decreases a.len(),
{
    if a.len() > 0 && a[0] == b[0] && b[0] == c[0] {
        law_order_is_transitive(after(a, 1), after(b, 1), after(c, 1));
    }
}

proof fn lemma_lex_prefix(a: Seq<char>, b: Seq<char>, i: int)
    requires
        0 <= i <= a.len(),
        i <= b.len(),
        forall|k: int| 0 <= k < i ==> a[k] == b[k],
    ensures
        lex_less(a, b) == lex_less(after(a, i), after(b, i)),
    decreases i,
{
    if i == 0 {
        assert(after(a, 0) =~= a);
        assert(after(b, 0) =~= b);
    } else {
        lemma_lex_prefix(after(a, 1), after(b, 1), i - 1);
        assert(after(after(a, 1), i - 1) =~= after(a, i));
        assert(after(after(b, 1), i - 1) =~= after(b, i));
    }
}

pub fn less(a: &[char], b: &[char]) -> (r: bool)
    ensures
        r == lex_less(a@, b@),
{
    let mut i: usize = 0;
    while i < a.len() && i < b.len() && a[i] == b[i]
        invariant
            i <= a@.len(),
            i <= b@.len(),
            forall|k: int| 0 <= k < i ==> a@[k] == b@[k],
        decreases a@.len() - i,
    {
        i += 1;
    }
    proof {
        lemma_lex_prefix(a@, b@, i as int);
    }
    if i == b.len() {
        false
    } else if i == a.len() {
        true
    } else {
        a[i] < b[i]
    }
}

// ---- Letter case ----

/// `c`, in lower case where it is a letter of ASCII.
pub open spec fn ascii_lower(c: char) -> char {
    if 'A' <= c && c <= 'Z' {
        ((c as u32) + 32) as char
    } else {
        c
    }
}

/// Whether two texts are the same but for the case of ASCII letters.
pub open spec fn same_letters(a: Seq<char>, b: Seq<char>) -> bool {
    a.map_values(|c: char| ascii_lower(c)) == b.map_values(|c: char| ascii_lower(c))
}

fn lower_letter(c: char) -> (r: char)
    ensures
        r == ascii_lower(c),
{
    if 'A' <= c && c <= 'Z' {
        ((c as u8) + 32) as char
    } else {
        c
    }
}

/// Whether two texts are the same but for the case of ASCII letters.
pub fn eq_ignore_case(a: &[char], b: &[char]) -> (r: bool)
    ensures
        r == same_letters(a@, b@),
{
    let ghost x = a@.map_values(|c: char| ascii_lower(c));
    let ghost y = b@.map_values(|c: char| ascii_lower(c));
    if a.len() != b.len() {
        assert(x.len() != y.len());
        return false;
    }
    let mut i: usize = 0;
    while i < a.len()
        invariant
            a@.len() == b@.len(),
            i <= a@.len(),
            x == a@.map_values(|c: char| ascii_lower(c)),
            y == b@.map_values(|c: char| ascii_lower(c)),
            forall|k: int| 0 <= k < i ==> x[k] == y[k],
        decreases a@.len() - i,
    {
        if lower_letter(a[i]) != lower_letter(b[i]) {
            assert(x[i as int] != y[i as int]);
            return false;
        }
        i += 1;
    }
    assert(x =~= y);
    true
}

// ---- Replacing ----

/// `s` with every `from` replaced by `to`.
pub open spec fn replaced(s: Seq<char>, from: char, to: char) -> Seq<char> {
    s.map_values(|c: char| if c == from { to } else { c })
}

pub fn replace(v: &[char], from: char, to: char) -> (r: Vec<char>)
    ensures
        r@ == replaced(v@, from, to),
{
    let mut out: Vec<char> = Vec::new();
    let mut i: usize = 0;
    while i < v.len()
        invariant
            i <= v@.len(),
            out@ =~= replaced(v@, from, to).take(i as int),
        decreases v@.len() - i,
    {
        let c = v[i];
        out.push(if c == from { to } else { c });
        i += 1;
    }
    out
}

} // verus!
