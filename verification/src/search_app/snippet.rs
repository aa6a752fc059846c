//! The part of a line that is shown, with what was found in it set off.

use vstd::prelude::*;

use crate::bytes::{
    byte_get, byte_len, byte_slice, char_at_byte, lemma_char_at_byte, lemma_char_found,
    lemma_len_of_take,
};
use crate::cells::{text_width, width_of};
use crate::input::{least, monus, most, smaller, take_off};
use crate::scan::{char_bytes, lemma_utf8_len_add, lemma_utf8_len_push, utf8_len, utf8_width};
use crate::style::{patched, push_span, spans_view, Span, SpanView, Style};
use crate::text::{chars_of, text_of};

verus! {

/// The most characters that take no more than `at` bytes.
pub open spec fn chars_within(s: Seq<char>, at: int) -> int
    decreases s.len(),
{
    if s.len() == 0 || utf8_len(s) <= at {
        s.len() as int
    } else {
        chars_within(s.drop_last(), at)
    }
}

proof fn lemma_within(s: Seq<char>, at: int)
    requires
        at >= 0,
    ensures
        0 <= chars_within(s, at) <= s.len(),
        utf8_len(s.take(chars_within(s, at))) <= at,
        chars_within(s, at) < s.len() ==> utf8_len(s.take(chars_within(s, at) + 1)) > at,
    decreases s.len(),
{
    assert(s.take(s.len() as int) =~= s);
    if s.len() > 0 && utf8_len(s) > at {
        let k = chars_within(s.drop_last(), at);
        lemma_within(s.drop_last(), at);
        assert(s.drop_last().take(k) =~= s.take(k));
        if k < s.len() - 1 {
            assert(s.drop_last().take(k + 1) =~= s.take(k + 1));
        }
    }
}

proof fn lemma_within_is(s: Seq<char>, at: int, k: int)
    requires
        at >= 0,
        0 <= k <= s.len(),
        utf8_len(s.take(k)) <= at,
        k < s.len() ==> utf8_len(s.take(k + 1)) > at,
    ensures
        chars_within(s, at) == k,
{
    lemma_within(s, at);
    let j = chars_within(s, at);
    if j < k {
        lemma_len_of_take(s, j + 1, k);
    } else if j > k {
        lemma_len_of_take(s, k + 1, j);
    }
}

/// The most characters that take no more than `at` bytes, and how many they take.
fn whole_chars(v: &[char], at: usize) -> (r: (usize, usize))
    ensures
        r.0 == chars_within(v@, at as int),
        r.1 == utf8_len(v@.take(r.0 as int)),
        r.0 <= v@.len(),
        r.1 <= at,
{
    let total = v.len();
    let mut k: usize = 0;
    let mut sum: usize = 0;
    assert(v@.take(0) =~= Seq::empty());
    while k < total
        invariant
            k <= total,
            total == v@.len(),
            sum == utf8_len(v@.take(k as int)),
            sum <= at,
        decreases total - k,
    {
        let w = char_bytes(v[k]);
        proof {
            assert(v@.take(k + 1) =~= v@.take(k as int).push(v@[k as int]));
            lemma_utf8_len_push(v@.take(k as int), v@[k as int]);
        }
        if w > at - sum {
            proof {
                lemma_within_is(v@, at as int, k as int);
            }
            return (k, sum);
        }
        sum += w;
        k += 1;
    }
    proof {
        lemma_within_is(v@, at as int, k as int);
    }
    (k, sum)
}

/// The byte at which what was found first begins.
pub open spec fn first_found(line: Seq<char>, found: Seq<(usize, usize)>) -> int {
    if found.len() == 0 {
        0
    } else {
        least(found[0].0 as int, utf8_len(line) as int)
    }
}

/// The first character that is shown: that of the line, or one a third of the room
/// before what was found.
pub open spec fn window_start(line: Seq<char>, found: Seq<(usize, usize)>, max: int) -> int {
    let first = first_found(line, found);
    if utf8_len(line) <= max || first < max / 2 {
        0
    } else {
        chars_within(line, monus(first, max / 3))
    }
}

/// The byte at which the shown part begins.
pub open spec fn start_byte(line: Seq<char>, found: Seq<(usize, usize)>, max: int) -> int {
    utf8_len(line.take(window_start(line, found, max))) as int
}

/// The character after the last that is shown.
pub open spec fn window_end(line: Seq<char>, found: Seq<(usize, usize)>, max: int) -> int {
    let start = start_byte(line, found, max);
    chars_within(
        line,
        least(
            utf8_len(line) as int,
            start + monus(
                max,
                if start > 0 {
                    1
                } else {
                    0
                },
            ),
        ),
    )
}

pub open spec fn end_byte(line: Seq<char>, found: Seq<(usize, usize)>, max: int) -> int {
    utf8_len(line.take(window_end(line, found, max))) as int
}

/// The mark of what is left out.
pub open spec fn dots_if(left_out: bool) -> Seq<char> {
    if left_out {
        seq!['…']
    } else {
        Seq::empty()
    }
}

/// The shown part of a line.
pub open spec fn snippet(line: Seq<char>, found: Seq<(usize, usize)>, max: int) -> Seq<char> {
    let a = window_start(line, found, max);
    let b = window_end(line, found, max);
    let text = dots_if(start_byte(line, found, max) > 0) + line.subrange(a, b);
    text + dots_if(end_byte(line, found, max) < utf8_len(line) && width_of(text) < max)
}

/// What of the first `n` finds is shown, counted in bytes of the shown part.
pub open spec fn shown_ranges(
    found: Seq<(usize, usize)>,
    start: int,
    end: int,
    n: int,
) -> Seq<(usize, usize)>
    decreases n,
{
    if n <= 0 {
        Seq::empty()
    } else {
        let rest = shown_ranges(found, start, end, n - 1);
        let s = most(found[n - 1].0 as int, start);
        let e = least(found[n - 1].1 as int, end);
        let shift = if start > 0 {
            3int
        } else {
            0
        };
        if s < e {
            rest.push(((s - start + shift) as usize, (e - start + shift) as usize))
        } else {
            rest
        }
    }
}

/// The shown part of a line, and what of the finds is in it.
pub open spec fn snippet_of(line: Seq<char>, found: Seq<(usize, usize)>, max: int) -> (
    Seq<char>,
    Seq<(usize, usize)>,
) {
    if max <= 2 || line.len() == 0 {
        (Seq::empty(), Seq::empty())
    } else {
        (
            snippet(line, found, max),
            shown_ranges(
                found,
                start_byte(line, found, max),
                end_byte(line, found, max),
                found.len() as int,
            ),
        )
    }
}

proof fn lemma_window(line: Seq<char>, found: Seq<(usize, usize)>, max: int)
    requires
        max > 2,
    ensures
        0 <= window_start(line, found, max) <= window_end(line, found, max) <= line.len(),
        start_byte(line, found, max) <= end_byte(line, found, max) <= utf8_len(line),
        end_byte(line, found, max) - start_byte(line, found, max) <= max,
{
    let len = utf8_len(line) as int;
    let first = first_found(line, found);
    lemma_within(line, monus(first, max / 3));
    let a = window_start(line, found, max);
    assert(line.take(0) =~= Seq::empty());
    assert(line.take(line.len() as int) =~= line);
    lemma_len_of_take(line, a, line.len() as int);
    let start = start_byte(line, found, max);
    let to = least(
        len,
        start + monus(
            max,
            if start > 0 {
                1
            } else {
                0
            },
        ),
    );
    lemma_within(line, to);
    let b = window_end(line, found, max);
    if b < a {
        lemma_len_of_take(line, b + 1, a);
    }
    lemma_len_of_take(line, a, b);
    lemma_len_of_take(line, b, line.len() as int);
}

fn clip(found: &[(usize, usize)], start: usize, end: usize) -> (r: Vec<(usize, usize)>)
    requires
        start <= end,
        start > 0 ==> end - start <= usize::MAX - 3,
    ensures
        r@ == shown_ranges(found@, start as int, end as int, found@.len() as int),
{
    let shift: usize = if start > 0 {
        3
    } else {
        0
    };
    let mut out: Vec<(usize, usize)> = Vec::new();
    let mut i: usize = 0;
    while i < found.len()
        invariant
            i <= found@.len(),
            start <= end,
            start > 0 ==> end - start <= usize::MAX - 3,
            shift == (if start > 0 {
                3usize
            } else {
                0
            }),
            out@ =~= shown_ranges(found@, start as int, end as int, i as int),
        decreases found@.len() - i,
    {
        let (ms, me) = found[i];
        let s = if ms > start {
            ms
        } else {
            start
        };
        let e = if me < end {
            me
        } else {
            end
        };
        if s < e {
            out.push((s - start + shift, e - start + shift));
        }
        i += 1;
    }
    out
}

fn start_char(v: &[char], len: usize, found: &[(usize, usize)], max: usize) -> (r: (usize, usize))
    requires
        len == utf8_len(v@),
    ensures
        r.0 == window_start(v@, found@, max as int),
        r.1 == start_byte(v@, found@, max as int),
{
    let first = if found.len() == 0 {
        0
    } else {
        smaller(found[0].0, len)
    };
    assert(v@.take(0) =~= Seq::empty());
    if len <= max || first < max / 2 {
        (0, 0)
    } else {
        whole_chars(v, take_off(first, max / 3))
    }
}

/// The part of a line that fits, round what was found first, and what of the finds
/// is in it, counted in bytes.
pub fn snippet_window(line: &str, found: &[(usize, usize)], max: usize) -> (r: (
    String,
    Vec<(usize, usize)>,
))
    requires
        max <= usize::MAX - 3,
    ensures
        ((r.0)@, (r.1)@) == snippet_of(line@, found@, max as int),
{
    let v = chars_of(line);
    if max <= 2 || v.len() == 0 {
        let text = String::new();
        let none: Vec<(usize, usize)> = Vec::new();
        assert(text@ =~= Seq::empty());
        assert(none@ =~= Seq::empty());
        return (text, none);
    }
    let len = byte_len(line);
    let (a, start) = start_char(&v, len, found, max);
    proof {
        lemma_window(line@, found@, max as int);
    }
    let room = if start > 0 {
        max - 1
    } else {
        max
    };
    let to = if room < len - start {
        start + room
    } else {
        len
    };
    let (b, end) = whole_chars(&v, to);
    let mut text: Vec<char> = Vec::new();
    if start > 0 {
        text.push('…');
    }
    let ghost head = text@;
    assert(head =~= dots_if(start > 0));
    let part = crate::text::slice_of(&v, a, b);
    crate::text::push_all(&mut text, &part);
    let ghost shown = text@;
    assert(shown =~= dots_if(start > 0) + line@.subrange(a as int, b as int));
    let so_far = text_of(&text);
    if end < len && text_width(so_far.as_str()) < max {
        text.push('…');
    }
    assert(text@ =~= snippet(line@, found@, max as int));
    (text_of(&text), clip(found, start, end))
}

/// Whether each end of a range lies between characters, or behind the text.
pub open spec fn between_chars(text: Seq<char>, ranges: Seq<(usize, usize)>) -> bool {
    forall|i: int|
        0 <= i < ranges.len() ==> whole_range(text, #[trigger] ranges[i])
}

pub open spec fn whole_range(text: Seq<char>, r: (usize, usize)) -> bool {
    char_at_byte(text, least(r.0 as int, utf8_len(text) as int)) is Some && char_at_byte(
        text,
        least(r.1 as int, utf8_len(text) as int),
    ) is Some
}

/// Whether each end of a range lies between characters, or behind the text.
pub fn ranges_are_whole(text: &str, ranges: &[(usize, usize)]) -> (r: bool)
    ensures
        r == between_chars(text@, ranges@),
{
    let v = chars_of(text);
    let len = byte_len(text);
    let mut i: usize = 0;
    while i < ranges.len()
        invariant
            i <= ranges@.len(),
            v@ == text@,
            len == utf8_len(text@),
            forall|k: int| 0 <= k < i ==> whole_range(text@, #[trigger] ranges@[k]),
        decreases ranges@.len() - i,
    {
        let (s, e) = ranges[i];
        let from = crate::bytes::char_index(&v, smaller(s, len));
        let to = crate::bytes::char_index(&v, smaller(e, len));
        if from.is_none() || to.is_none() {
            assert(!whole_range(text@, ranges@[i as int]));
            return false;
        }
        i += 1;
    }
    true
}

/// The text between two bytes.
pub open spec fn part(text: Seq<char>, from: int, to: int) -> Seq<char> {
    match byte_slice(text, from, to) {
        Some(t) => t,
        None => Seq::empty(),
    }
}

/// The spans of a text as far as the first `n` ranges, and the byte behind them.
pub open spec fn marked(
    text: Seq<char>,
    ranges: Seq<(usize, usize)>,
    base: Style,
    highlight: Style,
    n: int,
) -> (Seq<SpanView>, int)
    decreases n,
{
    if n <= 0 {
        (Seq::empty(), 0)
    } else {
        let (spans, cursor) = marked(text, ranges, base, highlight, n - 1);
        let len = utf8_len(text) as int;
        let start = least(ranges[n - 1].0 as int, len);
        let end = least(ranges[n - 1].1 as int, len);
        let a = if cursor < start {
            spans.push(SpanView { text: part(text, cursor, start), style: base })
        } else {
            spans
        };
        let b = if start < end {
            a.push(
                SpanView { text: part(text, start, end), style: patched(base, highlight) },
            )
        } else {
            a
        };
        (b, end)
    }
}

/// A text with ranges of it set off.
pub open spec fn highlighted(
    text: Seq<char>,
    ranges: Seq<(usize, usize)>,
    base: Style,
    highlight: Style,
) -> Seq<SpanView> {
    if ranges.len() == 0 {
        seq![SpanView { text, style: base }]
    } else {
        let (spans, cursor) = marked(text, ranges, base, highlight, ranges.len() as int);
        if cursor < utf8_len(text) {
            spans.push(
                SpanView { text: part(text, cursor, utf8_len(text) as int), style: base },
            )
        } else {
            spans
        }
    }
}

fn push_part(out: &mut Vec<Span>, v: &Vec<char>, from: usize, to: usize, style: Style)
    ensures
        spans_view(final(out)@) == spans_view(old(out)@).push(
            SpanView { text: part(v@, from as int, to as int), style },
        ),
{
    let text = match byte_get(v, from, to) {
        Some(t) => text_of(&t),
        None => {
            let empty = String::new();
            assert(empty@ =~= Seq::empty());
            empty
        },
    };
    push_span(out, Span { text, style });
}

/// A text with ranges of it set off. Ranges that cut a character in two are left
/// out of the contract.
pub fn highlight_spans(
    text: &str,
    ranges: &[(usize, usize)],
    base: Style,
    highlight: Style,
) -> (r: Vec<Span>)
    requires
        between_chars(text@, ranges@),
    ensures
        spans_view(r@) == highlighted(text@, ranges@, base, highlight),
{
    let mut out: Vec<Span> = Vec::new();
    assert(spans_view(out@) =~= Seq::empty());
    if ranges.len() == 0 {
        push_span(&mut out, Span { text: text.to_string(), style: base });
        assert(spans_view(out@) =~= highlighted(text@, ranges@, base, highlight));
        return out;
    }
    let v = chars_of(text);
    let len = byte_len(text);
    let mut cursor: usize = 0;
    let mut i: usize = 0;
    while i < ranges.len()
        invariant
            i <= ranges@.len(),
            v@ == text@,
            len == utf8_len(text@),
            (spans_view(out@), cursor as int) == marked(text@, ranges@, base, highlight, i as int),
        decreases ranges@.len() - i,
    {
        let (s, e) = ranges[i];
        let start = smaller(s, len);
        let end = smaller(e, len);
        if cursor < start {
            push_part(&mut out, &v, cursor, start, base);
        }
        if start < end {
            push_part(&mut out, &v, start, end, base.patch(highlight));
        }
        cursor = end;
        i += 1;
    }
    if cursor < len {
        push_part(&mut out, &v, cursor, len, base);
    }
    out
}

/// Finds that begin and end between characters are shown so too.
pub proof fn law_shown_ranges_are_whole(line: Seq<char>, found: Seq<(usize, usize)>, max: int)
    requires
        between_chars(line, found),
        max <= usize::MAX - 3,
        utf8_len(line) <= usize::MAX,
    ensures
        between_chars(snippet_of(line, found, max).0, snippet_of(line, found, max).1),
{
    if max > 2 && line.len() > 0 {
        lemma_window(line, found, max);
        lemma_ranges_are_whole(line, found, max, found.len() as int);
    }
}

proof fn lemma_ranges_are_whole(line: Seq<char>, found: Seq<(usize, usize)>, max: int, n: int)
    requires
        between_chars(line, found),
        2 < max <= usize::MAX - 3,
        utf8_len(line) <= usize::MAX,
        0 <= n <= found.len(),
    ensures
        between_chars(
            snippet(line, found, max),
            shown_ranges(found, start_byte(line, found, max), end_byte(line, found, max), n),
        ),
    decreases n,
{
    let start = start_byte(line, found, max);
    let end = end_byte(line, found, max);
    if n > 0 {
        lemma_ranges_are_whole(line, found, max, n - 1);
        lemma_window(line, found, max);
        let text = snippet(line, found, max);
        let f = found[n - 1];
        assert(whole_range(line, f));
        let s = most(f.0 as int, start);
        let e = least(f.1 as int, end);
        if s < e {
            let a = window_start(line, found, max);
            let b = window_end(line, found, max);
            lemma_char_found(line, a);
            lemma_char_found(line, b);
            lemma_byte_shown(line, found, max, s);
            lemma_byte_shown(line, found, max, e);
            let shift = if start > 0 {
                3int
            } else {
                0
            };
            assert(e - start <= max);
            let r = ((s - start + shift) as usize, (e - start + shift) as usize);
            lemma_char_at_byte(text, s - start + shift);
            lemma_char_at_byte(text, e - start + shift);
            let k = char_at_byte(text, e - start + shift)->0;
            lemma_len_of_take(text, k, text.len() as int);
            assert(text.take(text.len() as int) =~= text);
            assert(whole_range(text, r));
            let rest = shown_ranges(found, start, end, n - 1);
            assert forall|i: int| 0 <= i < rest.push(r).len() implies whole_range(
                text,
                #[trigger] rest.push(r)[i],
            ) by {
                if i < rest.len() {
                    assert(rest.push(r)[i] == rest[i]);
                }
            }
        }
    }
}

/// A byte between two characters of the line stands between the same characters of
/// what is shown.
proof fn lemma_byte_shown(line: Seq<char>, found: Seq<(usize, usize)>, max: int, p: int)
    requires
        max > 2,
        start_byte(line, found, max) <= p <= end_byte(line, found, max),
        char_at_byte(line, p) is Some,
    ensures
        char_at_byte(
            snippet(line, found, max),
            p - start_byte(line, found, max) + if start_byte(line, found, max) > 0 {
                3int
            } else {
                0
            },
        ) is Some,
{
    let start = start_byte(line, found, max);
    let a = window_start(line, found, max);
    let b = window_end(line, found, max);
    lemma_window(line, found, max);
    lemma_char_at_byte(line, p);
    let k = char_at_byte(line, p)->0;
    if k < a {
        lemma_len_of_take(line, k, a);
    }
    if k > b {
        lemma_len_of_take(line, b, k);
    }
    let text = snippet(line, found, max);
    let head = dots_if(start > 0);
    let n = head.len() as int + (k - a);
    assert(text.take(n) =~= head + line.subrange(a, k));
    lemma_utf8_len_add(head, line.subrange(a, k));
    assert(line.take(k) =~= line.take(a) + line.subrange(a, k));
    lemma_utf8_len_add(line.take(a), line.subrange(a, k));
    if start > 0 {
        assert(head.drop_last() =~= Seq::empty());
        assert(utf8_len(head.drop_last()) == 0);
        assert(utf8_width('…') == 3);
        assert(utf8_len(head) == 3);
    }
    lemma_char_found(text, n);
}

/// Where no character takes more than `w` bytes, as many characters as fit leave
/// fewer than `w` bytes of the room unused.
proof fn lemma_within_fills(s: Seq<char>, at: int, w: int)
    requires
        0 <= at <= utf8_len(s),
        forall|k: int| 0 <= k < s.len() ==> utf8_width(#[trigger] s[k]) <= w,
        w >= 1,
    ensures
        at - w < utf8_len(s.take(chars_within(s, at))) <= at,
{
    lemma_within(s, at);
    let k = chars_within(s, at);
    if k < s.len() {
        assert(s.take(k + 1) =~= s.take(k).push(s[k]));
        lemma_utf8_len_push(s.take(k), s[k]);
    } else {
        assert(s.take(k) =~= s);
    }
}

/// What was found first is in sight: it begins among what is shown, where no
/// character takes more than `w` bytes and there is room for three characters
/// less one byte. With less room it can begin after what is shown.
pub proof fn law_first_find_is_in_sight(
    line: Seq<char>,
    found: Seq<(usize, usize)>,
    max: int,
    w: int,
)
    requires
        max > 2,
        found.len() > 0,
        found[0].0 < utf8_len(line),
        w >= 1,
        forall|k: int| 0 <= k < line.len() ==> utf8_width(#[trigger] line[k]) <= w,
        max >= 3 * w - 1,
    ensures
        start_byte(line, found, max) <= found[0].0 < end_byte(line, found, max),
{
    let first = found[0].0 as int;
    let len = utf8_len(line) as int;
    assert(line.take(0) =~= Seq::empty());
    assert(first_found(line, found) == first);
    lemma_within_fills(line, monus(first, max / 3), w);
    let start = start_byte(line, found, max);
    let to = least(
        len,
        start + monus(
            max,
            if start > 0 {
                1
            } else {
                0
            },
        ),
    );
    lemma_within_fills(line, to, w);
    assert(line.take(line.len() as int) =~= line);
    if to == len {
        assert(chars_within(line, to) == line.len());
    }
}

} // verus!
