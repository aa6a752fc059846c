//! What is searched for, and what a search reports.

use vstd::prelude::*;

use crate::matcher::{build_search_regex, query_pattern, regex_error, Matcher};
use crate::scan::{trim, trimmed, Class};
use crate::text::{cat, chars_of, eq_text, pieces, split, split_on, text_of, text_slice, texts};

verus! {

/// A query with its filters.
pub struct SearchState {
    pub query: String,
    pub included: String,
    pub excluded: String,
    pub regex: bool,
    pub case_sensitive: bool,
    pub whole_word: bool,
}

#[verifier::ext_equal]
pub struct StateView {
    pub query: Seq<char>,
    pub included: Seq<char>,
    pub excluded: Seq<char>,
    pub regex: bool,
    pub case_sensitive: bool,
    pub whole_word: bool,
}

impl View for SearchState {
    type V = StateView;

    open spec fn view(&self) -> StateView {
        StateView {
            query: self.query@,
            included: self.included@,
            excluded: self.excluded@,
            regex: self.regex,
            case_sensitive: self.case_sensitive,
            whole_word: self.whole_word,
        }
    }
}

impl SearchState {
    pub fn same(&self, other: &SearchState) -> (r: bool)
        ensures
            r == (self@ == other@),
    {
        eq_text(self.query.as_str(), other.query.as_str()) && eq_text(
            self.included.as_str(),
            other.included.as_str(),
        ) && eq_text(self.excluded.as_str(), other.excluded.as_str()) && self.regex == other.regex
            && self.case_sensitive == other.case_sensitive && self.whole_word == other.whole_word
    }
}

/// The parts that are left of some after they are trimmed.
pub open spec fn kept(parts: Seq<Seq<char>>) -> Seq<Seq<char>>
    decreases parts.len(),
{
    if parts.len() == 0 {
        Seq::empty()
    } else {
        let rest = kept(parts.drop_last());
        let part = trim(parts.last(), Class::White);
        if part.len() > 0 {
            rest.push(part)
        } else {
            rest
        }
    }
}

/// Patterns between commas.
pub open spec fn globs(raw: Seq<char>) -> Seq<Seq<char>> {
    kept(split(raw, ','))
}

/// Patterns between commas, without the blanks round them; empty ones do not count.
pub fn split_globs(raw: &str) -> (r: Vec<String>)
    ensures
        texts(r@) == globs(raw@),
{
    let v = chars_of(raw);
    let parts = split_on(&v, ',');
    let ghost all = pieces(parts@);
    let mut out: Vec<String> = Vec::new();
    let mut i: usize = 0;
    assert(texts(out@) =~= kept(all.take(0)));
    while i < parts.len()
        invariant
            i <= parts@.len(),
            all == pieces(parts@),
            texts(out@) == kept(all.take(i as int)),
        decreases parts@.len() - i,
    {
        proof {
            assert(all.take(i + 1).drop_last() =~= all.take(i as int));
            assert(all.take(i + 1).last() == parts@[i as int]@);
        }
        let part = trimmed(&parts[i], Class::White);
        if part.len() > 0 {
            let ghost before = texts(out@);
            let text = text_of(&part);
            out.push(text);
            assert(texts(out@) =~= before.push(part@));
        }
        i += 1;
    }
    assert(all.take(i as int) =~= all);
    out
}

/// A pattern has no blanks round it, and is not empty.
pub proof fn law_globs_are_trimmed(raw: Seq<char>, i: int)
    requires
        0 <= i < globs(raw).len(),
    ensures
        globs(raw)[i].len() > 0,
        exists|part: Seq<char>| split(raw, ',').contains(part) && globs(raw)[i] == trim(part, Class::White),
{
    lemma_kept(split(raw, ','), i);
}

proof fn lemma_kept(parts: Seq<Seq<char>>, i: int)
    requires
        0 <= i < kept(parts).len(),
    ensures
        kept(parts)[i].len() > 0,
        exists|part: Seq<char>| parts.contains(part) && kept(parts)[i] == trim(part, Class::White),
    decreases parts.len(),
{
    let rest = kept(parts.drop_last());
    if i < rest.len() {
        lemma_kept(parts.drop_last(), i);
        let part = choose|part: Seq<char>|
            parts.drop_last().contains(part) && rest[i] == trim(part, Class::White);
        let k = choose|k: int| 0 <= k < parts.drop_last().len() && parts.drop_last()[k] == part;
        assert(parts[k] == part);
        assert(parts.contains(part) && kept(parts)[i] == trim(part, Class::White));
    } else {
        assert(parts.contains(parts.last()));
    }
}

/// The first `n` patterns, each after the word that says it is one.
pub open spec fn glob_args(patterns: Seq<Seq<char>>, sign: Seq<char>, n: int) -> Seq<Seq<char>>
    decreases n,
{
    if n <= 0 {
        Seq::empty()
    } else {
        glob_args(patterns, sign, n - 1).push("-g"@).push(sign + patterns[n - 1])
    }
}

/// The words that say how a query is meant.
pub open spec fn mode_args(s: StateView) -> Seq<Seq<char>> {
    (if s.regex {
        Seq::<Seq<char>>::empty()
    } else {
        seq!["--fixed-strings"@]
    }) + (if s.case_sensitive {
        Seq::<Seq<char>>::empty()
    } else {
        seq!["--ignore-case"@]
    }) + (if s.whole_word {
        seq!["--word-regexp"@]
    } else {
        Seq::<Seq<char>>::empty()
    })
}

/// What ripgrep is called with.
pub open spec fn rg_args(s: StateView, query: Seq<char>) -> Seq<Seq<char>> {
    let included = globs(s.included);
    let excluded = globs(s.excluded);
    seq!["--json"@, "--line-buffered"@, "--no-messages"@, "--line-number"@] + mode_args(s)
        + glob_args(included, ""@, included.len() as int) + glob_args(
        excluded,
        "!"@,
        excluded.len() as int,
    ) + seq!["-e"@, query, "."@]
}

fn push_arg(out: &mut Vec<String>, arg: &str)
    ensures
        texts(final(out)@) == texts(old(out)@).push(arg@),
{
    let ghost before = texts(out@);
    out.push(arg.to_string());
    assert(texts(out@) =~= before.push(arg@));
}

fn push_globs(out: &mut Vec<String>, patterns: &Vec<String>, sign: &str)
    ensures
        texts(final(out)@) == texts(old(out)@) + glob_args(
            texts(patterns@),
            sign@,
            patterns@.len() as int,
        ),
{
    let ghost all = texts(patterns@);
    let ghost first = texts(out@);
    let mut i: usize = 0;
    assert(first + glob_args(all, sign@, 0) =~= first);
    while i < patterns.len()
        invariant
            i <= patterns@.len(),
            all == texts(patterns@),
            texts(out@) == first + glob_args(all, sign@, i as int),
        decreases patterns@.len() - i,
    {
        assert(all[i as int] == patterns@[i as int]@);
        push_arg(out, "-g");
        push_arg(out, cat(sign, patterns[i].as_str()).as_str());
        assert(texts(out@) =~= first + glob_args(all, sign@, i + 1));
        i += 1;
    }
}

fn push_modes(out: &mut Vec<String>, state: &SearchState)
    ensures
        texts(final(out)@) == texts(old(out)@) + mode_args(state@),
{
    let ghost first = texts(out@);
    if !state.regex {
        push_arg(out, "--fixed-strings");
    }
    if !state.case_sensitive {
        push_arg(out, "--ignore-case");
    }
    if state.whole_word {
        push_arg(out, "--word-regexp");
    }
    assert(texts(out@) =~= first + mode_args(state@));
}

/// What ripgrep is called with.
pub fn search_command(state: &SearchState, query: &str) -> (r: Vec<String>)
    ensures
        texts(r@) == rg_args(state@, query@),
{
    let mut out: Vec<String> = Vec::new();
    assert(texts(out@) =~= Seq::empty());
    push_arg(&mut out, "--json");
    push_arg(&mut out, "--line-buffered");
    push_arg(&mut out, "--no-messages");
    push_arg(&mut out, "--line-number");
    assert(texts(out@) =~= seq!["--json"@, "--line-buffered"@, "--no-messages"@, "--line-number"@]);
    push_modes(&mut out, state);
    let included = split_globs(state.included.as_str());
    assert(texts(included@).len() == included@.len());
    push_globs(&mut out, &included, "");
    let excluded = split_globs(state.excluded.as_str());
    assert(texts(excluded@).len() == excluded@.len());
    push_globs(&mut out, &excluded, "!");
    let ghost before = texts(out@);
    push_arg(&mut out, "-e");
    push_arg(&mut out, query);
    push_arg(&mut out, ".");
    assert(texts(out@) =~= before + seq!["-e"@, query@, "."@]);
    out
}

/// What finds a query in a preview, or why nothing can.
pub fn build_preview_regex(
    query: &str,
    regex_mode: bool,
    case_sensitive: bool,
    whole_word: bool,
) -> (r: Result<Matcher, String>)
    ensures
        ({
            let p = query_pattern(query@, regex_mode, whole_word);
            match r {
                Ok(m) => regex_error(p, !case_sensitive) is None && m.pattern() == p
                    && m.insensitive() == !case_sensitive,
                Err(e) => regex_error(p, !case_sensitive) == Some(e@),
            }
        }),
{
    build_search_regex(query, regex_mode, case_sensitive, whole_word)
}

/// Whether a query can be searched for, and else why not.
pub fn validate_pattern(query: &str, regex_mode: bool, case_sensitive: bool, whole_word: bool) -> (r:
    Result<(), String>)
    ensures
        (match r {
            Ok(()) => None,
            Err(e) => Some(e@),
        }) == regex_error(query_pattern(query@, regex_mode, whole_word), !case_sensitive),
{
    match build_preview_regex(query, regex_mode, case_sensitive, whole_word) {
        Ok(_) => Ok(()),
        Err(e) => Err(e),
    }
}

// ---- What is found ----

/// A line in which something was found: where, and the bytes of it at which each
/// occurrence begins and ends.
#[derive(Debug)]
pub struct UiMatch {
    pub path: String,
    pub line_number: usize,
    pub line_text: String,
    pub submatches: Vec<(usize, usize)>,
}

#[verifier::ext_equal]
pub struct FoundView {
    pub path: Seq<char>,
    pub line_number: usize,
    pub line_text: Seq<char>,
    pub submatches: Seq<(usize, usize)>,
}

impl View for UiMatch {
    type V = FoundView;

    open spec fn view(&self) -> FoundView {
        FoundView {
            path: self.path@,
            line_number: self.line_number,
            line_text: self.line_text@,
            submatches: self.submatches@,
        }
    }
}

/// A path without any number of `./` before it.
pub open spec fn without_dots(s: Seq<char>) -> Seq<char>
    decreases s.len(),
{
    if s.len() >= 2 && s[0] == '.' && s[1] == '/' {
        without_dots(s.skip(2))
    } else {
        s
    }
}

/// A line without what ends it.
pub open spec fn without_ends(s: Seq<char>) -> Seq<char>
    decreases s.len(),
{
    if s.len() > 0 && (s.last() == '\n' || s.last() == '\r') {
        without_ends(s.drop_last())
    } else {
        s
    }
}

fn strip_dots(v: &[char]) -> (r: String)
    ensures
        r@ == without_dots(v@),
{
    let total = v.len();
    let mut i: usize = 0;
    assert(v@.skip(0) =~= v@);
    while total - i >= 2 && v[i] == '.' && v[i + 1] == '/'
        invariant
            i <= total,
            total == v@.len(),
            without_dots(v@) == without_dots(v@.skip(i as int)),
        decreases total - i,
    {
        proof {
            let rest = v@.skip(i as int);
            assert(rest[0] == v@[i as int] && rest[1] == v@[i + 1]);
            assert(rest.skip(2) =~= v@.skip(i + 2));
        }
        i += 2;
    }
    let r = text_slice(v, i, total);
    assert(r@ =~= v@.skip(i as int));
    r
}

fn strip_ends(v: &[char]) -> (r: String)
    ensures
        r@ == without_ends(v@),
{
    let mut n = v.len();
    assert(v@.take(n as int) =~= v@);
    while n > 0 && (v[n - 1] == '\n' || v[n - 1] == '\r')
        invariant
            n <= v@.len(),
            without_ends(v@) == without_ends(v@.take(n as int)),
        decreases n,
    {
        assert(v@.take(n as int).last() == v@[n - 1]);
        assert(v@.take(n as int).drop_last() =~= v@.take(n - 1));
        n -= 1;
    }
    let r = text_slice(v, 0, n);
    assert(r@ =~= v@.take(n as int));
    r
}

/// A message of ripgrep, as far as it says that something was found.
pub open spec fn found_in(
    kind: Seq<char>,
    path: Option<Seq<char>>,
    line: Option<Seq<char>>,
    number: Option<usize>,
    submatches: Seq<(usize, usize)>,
) -> Option<FoundView> {
    match (path, line) {
        (Some(path), Some(line)) => if kind == "match"@ {
            Some(
                FoundView {
                    path: without_dots(path),
                    line_number: match number {
                        Some(n) => n,
                        None => 1,
                    },
                    line_text: without_ends(line),
                    submatches,
                },
            )
        } else {
            None
        },
        _ => None,
    }
}

/// A message of ripgrep, as far as it says that something was found: text that is
/// not Unicode is left out.
pub fn read_match(
    kind: &str,
    path: Option<String>,
    line: Option<String>,
    number: Option<usize>,
    submatches: Vec<(usize, usize)>,
) -> (r: Option<UiMatch>)
    ensures
        (match r {
            Some(m) => Some(m@),
            None => None,
        }) == found_in(
            kind@,
            crate::text::opt_text(path),
            crate::text::opt_text(line),
            number,
            submatches@,
        ),
{
    if !eq_text(kind, "match") {
        return None;
    }
    match (path, line) {
        (Some(path), Some(line)) => {
            let p = chars_of(path.as_str());
            let l = chars_of(line.as_str());
            Some(
                UiMatch {
                    path: strip_dots(&p),
                    line_number: match number {
                        Some(n) => n,
                        None => 1,
                    },
                    line_text: strip_ends(&l),
                    submatches,
                },
            )
        },
        _ => None,
    }
}

} // verus!
