//! Lines, words and numbers of a text.

use vstd::prelude::*;

use crate::scan::{
    is_white, lemma_skip_range, lemma_until_range, lines, skip, strip_return, trim, trim_start,
    until, words_from, Class,
};
use crate::text::{has_char, lemma_split_after, lemma_split_head, lemma_split_whole, split};

verus! {

/// A text of lines, each with a line feed at its end.
pub open spec fn unlines(parts: Seq<Seq<char>>) -> Seq<char>
    decreases parts.len(),
{
    if parts.len() == 0 {
        Seq::empty()
    } else {
        unlines(parts.drop_last()) + parts.last() + seq!['\n']
    }
}

/// Whether a text can be a line: it holds no line feed and does not end in a carriage
/// return.
pub open spec fn one_line(s: Seq<char>) -> bool {
    (forall|i: int| 0 <= i < s.len() ==> s[i] != '\n') && (s.len() > 0 ==> s.last() != '\r')
}

proof fn lemma_unlines_split(parts: Seq<Seq<char>>)
    requires
        forall|k: int| 0 <= k < parts.len() ==> one_line(#[trigger] parts[k]),
    ensures
        split(unlines(parts), '\n') == parts.push(Seq::empty()),
        parts.len() > 0 ==> unlines(parts).len() > 0 && unlines(parts).last() == '\n',
    decreases parts.len(),
{
    let none = Seq::<char>::empty();
    lemma_split_whole(none, '\n');
    if parts.len() == 0 {
        assert(unlines(parts) =~= none);
        assert(parts.push(none) =~= seq![none]);
    } else {
        let before = parts.drop_last();
        let p = parts.last();
        assert forall|k: int| 0 <= k < before.len() implies one_line(#[trigger] before[k]) by {
            assert(before[k] == parts[k]);
        }
        assert(one_line(parts[parts.len() - 1]));
        lemma_unlines_split(before);
        let tail = p + seq!['\n'];
        assert(!has_char(p, '\n'));
        assert(p + seq!['\n'] + none =~= tail);
        lemma_split_head(p, '\n', none);
        assert(split(tail, '\n') =~= seq![p, none]);
        if before.len() == 0 {
            assert(unlines(before) =~= none);
            assert(unlines(parts) =~= tail);
            assert(parts.push(none) =~= seq![p, none]);
        } else {
            lemma_split_after(unlines(before), tail, '\n');
            assert(unlines(before) + tail =~= unlines(parts));
            assert(before.push(none).drop_last() =~= before);
            assert(parts.push(none) =~= before + seq![p, none]);
        }
    }
}

/// The lines of a text that was made of lines are those lines.
pub proof fn law_lines_are_read_back(parts: Seq<Seq<char>>)
    requires
        forall|k: int| 0 <= k < parts.len() ==> one_line(#[trigger] parts[k]),
    ensures
        lines(unlines(parts)) == parts,
{
    lemma_unlines_split(parts);
    let all = parts.push(Seq::<char>::empty());
    assert(all.drop_last() =~= parts);
    assert forall|k: int| 0 <= k < parts.len() implies strip_return(#[trigger] parts[k])
        == parts[k] by {
        assert(one_line(parts[k]));
    }
    assert(parts.map_values(|line: Seq<char>| strip_return(line)) =~= parts);
}

/// Where white space ends.
pub proof fn lemma_skip_to(s: Seq<char>, from: int, to: int)
    requires
        0 <= from <= to <= s.len(),
        forall|k: int| from <= k < to ==> is_white(#[trigger] s[k]),
        to < s.len() ==> !is_white(s[to]),
    ensures
        skip(s, Class::White, from) == to,
    decreases to - from,
{
    if from < to {
        assert(is_white(s[from]));
        lemma_skip_to(s, from + 1, to);
    }
}

/// Where white space begins.
pub proof fn lemma_until_to(s: Seq<char>, from: int, to: int)
    requires
        0 <= from <= to <= s.len(),
        forall|k: int| from <= k < to ==> !is_white(#[trigger] s[k]),
        to < s.len() ==> is_white(s[to]),
    ensures
        until(s, Class::White, from) == to,
    decreases to - from,
{
    if from < to {
        assert(!is_white(s[from]));
        lemma_until_to(s, from + 1, to);
    }
}

/// The first word of a text, from a place on.
pub proof fn lemma_next_word(s: Seq<char>, from: int, a: int, b: int)
    requires
        0 <= from <= a < b <= s.len(),
        forall|k: int| from <= k < a ==> is_white(#[trigger] s[k]),
        forall|k: int| a <= k < b ==> !is_white(#[trigger] s[k]),
        b < s.len() ==> is_white(s[b]),
    ensures
        words_from(s, from) == seq![s.subrange(a, b)] + words_from(s, b),
{
    assert(!is_white(s[a]));
    lemma_skip_to(s, from, a);
    lemma_until_to(s, a, b);
}

/// A word is a part of its text.
pub proof fn lemma_words_within(s: Seq<char>, from: int, k: int)
    requires
        0 <= from <= s.len(),
        0 <= k < words_from(s, from).len(),
    ensures
        exists|a: int, b: int|
            from <= a < b <= s.len() && words_from(s, from)[k] == #[trigger] s.subrange(a, b),
    decreases s.len() - from,
{
    lemma_skip_range(s, Class::White, from);
    let a = skip(s, Class::White, from);
    if a < s.len() {
        lemma_until_range(s, Class::White, a);
        let b = until(s, Class::White, a);
        if k == 0 {
            assert(words_from(s, from)[0] == s.subrange(a, b));
        } else {
            assert(words_from(s, from)[k] == words_from(s, b)[k - 1]);
            lemma_words_within(s, b, k - 1);
        }
    }
}

/// A text whose first and last characters are not white space is not trimmed.
pub proof fn lemma_trim_edges(s: Seq<char>)
    requires
        s.len() > 0 ==> !is_white(s[0]) && !is_white(s.last()),
    ensures
        trim(s, Class::White) == s,
{
    assert(trim_start(s, Class::White) =~= s);
    assert(trim(s, Class::White) =~= s);
}

/// White space before such a text is trimmed off.
pub proof fn lemma_trim_ends(lead: Seq<char>, s: Seq<char>)
    requires
        forall|i: int| 0 <= i < lead.len() ==> is_white(#[trigger] lead[i]),
        s.len() > 0,
        !is_white(s[0]),
        !is_white(s.last()),
    ensures
        trim(lead + s, Class::White) == s,
{
    let all = lead + s;
    let n = lead.len() as int;
    assert forall|k: int| 0 <= k < n implies is_white(#[trigger] all[k]) by {
        assert(all[k] == lead[k]);
    }
    assert(all[n] == s[0]);
    lemma_skip_to(all, 0, n);
    assert(trim_start(all, Class::White) =~= s);
    assert(trim(all, Class::White) =~= s);
}

} // verus!
