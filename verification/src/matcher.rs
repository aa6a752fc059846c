//! Regular expressions.

use vstd::prelude::*;

use crate::bytes::char_at_byte;

verus! {

/// `regex::Regex`.
#[verifier::external_type_specification]
#[verifier::external_body]
pub struct ExRegex(regex::Regex);

/// A text with what a regular expression gives a meaning escaped, as
/// `regex::escape` gives it.
pub uninterp spec fn regex_escaped(text: Seq<char>) -> Seq<char>;

/// `regex::escape`: a function of the text alone.
#[verifier::external_body]
pub(crate) fn escape(text: &str) -> (r: String)
    ensures
        r@ == regex_escaped(text@),
{
    regex::escape(text)
}

/// What is wrong with a pattern, as `regex::RegexBuilder::build` tells it;
/// nothing where it compiles.
pub uninterp spec fn regex_error(pattern: Seq<char>, insensitive: bool) -> Option<Seq<char>>;

/// The matches of a pattern in a text, as `regex::Regex::find_iter` gives them:
/// the bytes at which each begins and ends.
pub uninterp spec fn regex_matches(pattern: Seq<char>, insensitive: bool, text: Seq<char>) -> Seq<
    (usize, usize),
>;

/// A pattern that compiles.
pub struct Matcher {
    pattern: String,
    insensitive: bool,
    regex: regex::Regex,
}

/// Each match begins and ends between characters, and after the one before.
pub open spec fn in_order(text: Seq<char>, found: Seq<(usize, usize)>) -> bool {
    &&& forall|i: int|
        0 <= i < found.len() ==> (#[trigger] found[i]).0 <= found[i].1 && char_at_byte(
            text,
            found[i].0 as int,
        ) is Some && char_at_byte(text, found[i].1 as int) is Some
    &&& forall|i: int, j: int|
        0 <= i < j < found.len() ==> (#[trigger] found[i]).1 <= (#[trigger] found[j]).0
}

impl Matcher {
    pub closed spec fn pattern(&self) -> Seq<char> {
        self.pattern@
    }

    pub closed spec fn insensitive(&self) -> bool {
        self.insensitive
    }

    /// `regex::RegexBuilder::build` with `case_insensitive`: whether the pattern
    /// compiles, and else why not, is a function of the two arguments. What is
    /// returned remembers both.
    #[verifier::external_body]
    pub(crate) fn compile(pattern: &str, insensitive: bool) -> (r: Result<Matcher, String>)
        ensures
            match r {
                Ok(m) => regex_error(pattern@, insensitive) is None && m.pattern() == pattern@
                    && m.insensitive() == insensitive,
                Err(e) => regex_error(pattern@, insensitive) == Some(e@),
            },
    {
        let mut builder = regex::RegexBuilder::new(pattern);
        builder.case_insensitive(insensitive);
        match builder.build() {
            Ok(regex) => Ok(Matcher { pattern: pattern.to_string(), insensitive, regex }),
            Err(e) => Err(e.to_string()),
        }
    }

    /// `regex::Regex::find_iter`: a function of the pattern, the case flag and
    /// the text. Matches do not overlap, come in the order of the text, and
    /// begin and end between characters.
    #[verifier::external_body]
    pub(crate) fn find_all(&self, text: &str) -> (r: Vec<(usize, usize)>)
        ensures
            r@ == regex_matches(self.pattern(), self.insensitive(), text@),
            in_order(text@, r@),
    {
        self.regex.find_iter(text).map(|m| (m.start(), m.end())).collect()
    }
}

impl Matcher {
    /// Whether the pattern occurs in a text.
    pub fn is_match(&self, text: &str) -> (r: bool)
        ensures
            r == (regex_matches(self.pattern(), self.insensitive(), text@).len() > 0),
    {
        self.find_all(text).len() > 0
    }
}

/// The pattern that finds a query: the query itself where it is a regular
/// expression, else its text; between word boundaries where whole words are
/// looked for.
pub open spec fn query_pattern(query: Seq<char>, regex: bool, whole_word: bool) -> Seq<char> {
    let p = if regex {
        query
    } else {
        regex_escaped(query)
    };
    if whole_word {
        "\\b(?:"@ + p + ")\\b"@
    } else {
        p
    }
}

/// The pattern that finds a query.
pub fn pattern_of(query: &str, regex: bool, whole_word: bool) -> (r: String)
    ensures
        r@ == query_pattern(query@, regex, whole_word),
{
    let p = if regex {
        query.to_string()
    } else {
        escape(query)
    };
    wrap_pattern(p, whole_word)
}

/// A pattern, between word boundaries where whole words are looked for.
pub fn wrap_pattern(p: String, whole_word: bool) -> (r: String)
    ensures
        r@ == (if whole_word {
            "\\b(?:"@ + p@ + ")\\b"@
        } else {
            p@
        }),
{
    if whole_word {
        crate::text::cat3("\\b(?:", p.as_str(), ")\\b")
    } else {
        p
    }
}

/// The matcher of a query, or why there is none.
pub fn build_search_regex(query: &str, regex_mode: bool, case_sensitive: bool, whole_word: bool) -> (r:
    Result<Matcher, String>)
    ensures
        ({
            let p = query_pattern(query@, regex_mode, whole_word);
            match r {
                Ok(m) => regex_error(p, !case_sensitive) is None && m.pattern() == p
                    && m.insensitive() == !case_sensitive,
                Err(e) => regex_error(p, !case_sensitive) == Some(e@),
            }
        }),
{
    let p = pattern_of(query, regex_mode, whole_word);
    Matcher::compile(p.as_str(), !case_sensitive)
}

} // verus!
