//! Clicked links and the mailbox through which they reach the Explorer pane.

use vstd::prelude::*;
use vstd::utf8::{decode_utf8, encode_utf8, valid_utf8};

use crate::git::{entries, outcome, EntryView, FileEntry, Outcome, Status, StatusView};
use crate::input::Platform;
use crate::paths::{
    below, is_below, join_path, law_stripping_is_undone, same_parts, stays_below, strip_root, under_dir,
};
use crate::scan::{
    decimal, eq_ignore_case, is_digit, number, parse_number, parse_u64, replace, replaced,
    same_letters, trim, trimmed, Class,
};
use crate::text::{
    after, cat, cat3, chars_of, eq_text, find, find_char, has_prefix, holds, opt_text, pieces, push_all,
    rfind, rfind_char, slice_of, split, split_on, starts_with_str, text_of, text_slice, texts,
};

verus! {

/// Where a link points: a path, and a line in it.
pub struct Link {
    pub path: String,
    pub line: Option<usize>,
}

#[verifier::ext_equal]
pub struct LinkView {
    pub path: Seq<char>,
    pub line: Option<usize>,
}

impl View for Link {
    type V = LinkView;

    open spec fn view(&self) -> LinkView {
        LinkView { path: self.path@, line: self.line }
    }
}

pub open spec fn link_of(r: Result<Link, String>) -> Result<LinkView, Seq<char>> {
    match r {
        Ok(link) => Ok(link@),
        Err(e) => Err(e@),
    }
}

// ---- Percent escapes ----

/// The value of a hexadecimal digit.
pub open spec fn hex_value(byte: u8) -> Option<u8> {
    if 48 <= byte <= 57 {
        Some((byte - 48) as u8)
    } else if 97 <= byte <= 102 {
        Some((byte - 97 + 10) as u8)
    } else if 65 <= byte <= 70 {
        Some((byte - 65 + 10) as u8)
    } else {
        None
    }
}

pub fn hex(byte: u8) -> (r: Option<u8>)
    ensures
        r == hex_value(byte),
{
    if 48 <= byte && byte <= 57 {
        Some(byte - 48)
    } else if 97 <= byte && byte <= 102 {
        Some(byte - 97 + 10)
    } else if 65 <= byte && byte <= 70 {
        Some(byte - 65 + 10)
    } else {
        None
    }
}

/// The byte that a percent escape at `i` stands for.
pub open spec fn escape_at(bytes: Seq<u8>, i: int) -> Option<u8> {
    if i + 2 < bytes.len() {
        match (hex_value(bytes[i + 1]), hex_value(bytes[i + 2])) {
            (Some(high), Some(low)) => Some((high * 16 + low) as u8),
            _ => None,
        }
    } else {
        None
    }
}

/// `bytes` from `i` on with each percent escape replaced by its byte; nothing
/// where an escape is not two hexadecimal digits.
pub open spec fn unescaped(bytes: Seq<u8>, i: int) -> Option<Seq<u8>>
    decreases bytes.len() + 3 - i,
{
    if i >= bytes.len() {
        Some(Seq::empty())
    } else if bytes[i] == 37 {
        match (escape_at(bytes, i), unescaped(bytes, i + 3)) {
            (Some(b), Some(rest)) => Some(seq![b] + rest),
            _ => None,
        }
    } else {
        match unescaped(bytes, i + 1) {
            Some(rest) => Some(seq![bytes[i]] + rest),
            None => None,
        }
    }
}

pub open spec fn bad_escape() -> Seq<char> {
    "Invalid percent escape in file URL."@
}

/// The text that a percent-encoded text stands for.
pub open spec fn percent_decoded(value: Seq<char>) -> Result<Seq<char>, Seq<char>> {
    match unescaped(encode_utf8(value), 0) {
        None => Err(bad_escape()),
        Some(bytes) => if bytes.contains(0) {
            Err("File URL contains a NUL byte."@)
        } else if !valid_utf8(bytes) {
            Err("File URL path is not UTF-8."@)
        } else {
            Ok(decode_utf8(bytes))
        },
    }
}

/// `String::from_utf8`: the text that the bytes encode, where they are UTF-8.
#[verifier::external_body]
fn text_from_utf8(bytes: Vec<u8>) -> (r: Option<String>)
    ensures
        match r {
            Some(s) => valid_utf8(bytes@) && s@ == decode_utf8(bytes@),
            None => !valid_utf8(bytes@),
        },
{
    String::from_utf8(bytes).ok()
}

fn read_escape(bytes: &[u8], i: usize) -> (r: Option<u8>)
    requires
        i < bytes@.len(),
    ensures
        r == escape_at(bytes@, i as int),
{
    let total = bytes.len();
    if total - i <= 2 {
        return None;
    }
    match (hex(bytes[i + 1]), hex(bytes[i + 2])) {
        (Some(high), Some(low)) => Some(high * 16 + low),
        _ => None,
    }
}

fn has_nul(bytes: &Vec<u8>) -> (r: bool)
    ensures
        r == bytes@.contains(0),
{
    let mut i: usize = 0;
    while i < bytes.len()
        invariant
            i <= bytes@.len(),
            forall|k: int| 0 <= k < i ==> bytes@[k] != 0,
        decreases bytes@.len() - i,
    {
        if bytes[i] == 0 {
            return true;
        }
        i += 1;
    }
    false
}

fn unescape(bytes: &[u8]) -> (r: Option<Vec<u8>>)
    ensures
        match r {
            Some(v) => unescaped(bytes@, 0) == Some(v@),
            None => unescaped(bytes@, 0) == None::<Seq<u8>>,
        },
{
    let total = bytes.len();
    let mut out: Vec<u8> = Vec::new();
    let mut i: usize = 0;
    while i < total
        invariant
            total == bytes@.len(),
            i <= total,
            unescaped(bytes@, 0) == (match unescaped(bytes@, i as int) {
                Some(rest) => Some(out@ + rest),
                None => None,
            }),
        decreases total - i,
    {
        let ghost before = out@;
        if bytes[i] == 37 {
            match read_escape(bytes, i) {
                Some(b) => {
                    out.push(b);
                    proof {
                        if let Some(rest) = unescaped(bytes@, i + 3) {
                            assert(before + (seq![b] + rest) =~= out@ + rest);
                        }
                    }
                    i += 3;
                },
                None => {
                    return None;
                },
            }
        } else {
            let b = bytes[i];
            out.push(b);
            proof {
                if let Some(rest) = unescaped(bytes@, i + 1) {
                    assert(before + (seq![b] + rest) =~= out@ + rest);
                }
            }
            i += 1;
        }
    }
    assert(out@ + Seq::<u8>::empty() =~= out@);
    Some(out)
}

/// The text that a percent-encoded text stands for.
pub fn percent_decode(value: &str) -> (r: Result<String, String>)
    ensures
        (match r {
            Ok(s) => Ok::<Seq<char>, Seq<char>>(s@),
            Err(e) => Err(e@),
        }) == percent_decoded(value@),
{
    match unescape(value.as_bytes()) {
        None => Err("Invalid percent escape in file URL.".to_string()),
        Some(bytes) => {
            if has_nul(&bytes) {
                return Err("File URL contains a NUL byte.".to_string());
            }
            match text_from_utf8(bytes) {
                Some(s) => Ok(s),
                None => Err("File URL path is not UTF-8.".to_string()),
            }
        },
    }
}

// ---- Line hints ----

/// `s` without `p` at its start, where it starts with it.
pub open spec fn without_prefix(s: Seq<char>, p: Seq<char>) -> Seq<char> {
    if has_prefix(s, p) {
        after(s, p.len() as int)
    } else {
        s
    }
}

/// How many digits `s` starts with, from `i` on.
pub open spec fn digit_run(s: Seq<char>, i: int) -> int
    decreases s.len() - i,
{
    if i < s.len() && is_digit(s[i]) {
        digit_run(s, i + 1)
    } else {
        i
    }
}

/// A number of one or more.
pub open spec fn positive(n: Option<usize>) -> Option<usize> {
    match n {
        Some(k) if k > 0 => Some(k),
        _ => None,
    }
}

/// The line that a hint names: `12`, `L12`, `L12C3`, `line=12`.
pub open spec fn hinted_line(value: Seq<char>) -> Option<usize> {
    let a = if has_prefix(value, "line="@) {
        after(value, 5)
    } else {
        without_prefix(value, "Line="@)
    };
    let b = if has_prefix(a, "L"@) {
        after(a, 1)
    } else {
        without_prefix(a, "l"@)
    };
    positive(number(b.take(digit_run(b, 0))))
}

fn strip(v: &[char], p: &str) -> (r: Option<Vec<char>>)
    ensures
        match r {
            Some(rest) => has_prefix(v@, p@) && rest@ == after(v@, p@.len() as int),
            None => !has_prefix(v@, p@),
        },
{
    let q = chars_of(p);
    if starts_with_str(v, p) {
        Some(slice_of(v, q.len(), v.len()))
    } else {
        None
    }
}

fn strip_either(v: &[char], p: &str, q: &str) -> (r: Vec<char>)
    ensures
        r@ == (if has_prefix(v@, p@) {
            after(v@, p@.len() as int)
        } else {
            without_prefix(v@, q@)
        }),
{
    match strip(v, p) {
        Some(rest) => rest,
        None => match strip(v, q) {
            Some(rest) => rest,
            None => {
                let whole = slice_of(v, 0, v.len());
                assert(whole@ =~= v@);
                whole
            },
        },
    }
}

fn digits_at_start(v: &[char]) -> (r: usize)
    ensures
        r == digit_run(v@, 0),
        r <= v@.len(),
{
    let mut i: usize = 0;
    while i < v.len()
        invariant
            i <= v@.len(),
            digit_run(v@, 0) == digit_run(v@, i as int),
        decreases v@.len() - i,
    {
        let c = v[i];
        if !('0' <= c && c <= '9') {
            return i;
        }
        i += 1;
    }
    i
}

fn parse_positive(v: &[char]) -> (r: Option<usize>)
    ensures
        r == positive(number(v@)),
{
    match parse_number(v) {
        Some(n) => if n > 0 {
            Some(n)
        } else {
            None
        },
        None => None,
    }
}

fn line_hint(value: &[char]) -> (r: Option<usize>)
    ensures
        r == hinted_line(value@),
{
    proof {
        reveal_strlit("line=");
        reveal_strlit("L");
    }
    let a = strip_either(value, "line=", "Line=");
    let b = strip_either(&a, "L", "l");
    let n = digits_at_start(&b);
    let run = slice_of(&b, 0, n);
    assert(run@ =~= b@.take(n as int));
    parse_positive(&run)
}

/// The line that a hint names: `12`, `L12`, `L12C3`, `line=12`.
pub fn parse_line_hint(value: &str) -> (r: Option<usize>)
    ensures
        r == hinted_line(value@),
{
    let v = chars_of(value);
    line_hint(&v)
}

/// A path that ends in `:line` or `:line:column`, taken apart.
pub open spec fn line_suffix(value: Seq<char>) -> Option<(Seq<char>, usize)> {
    let i = rfind_char(value, ':', value.len() as int);
    if i < 0 {
        None
    } else {
        let prefix = value.take(i);
        let tail = number(after(value, i + 1));
        let j = rfind_char(prefix, ':', i);
        let inner = if tail is Some && j >= 0 {
            positive(number(after(prefix, j + 1)))
        } else {
            None
        };
        match inner {
            Some(line) => Some((prefix.take(j), line)),
            None => match positive(tail) {
                Some(line) => Some((prefix, line)),
                None => None,
            },
        }
    }
}

/// A path that ends in `:line` or `:line:column`, taken apart.
pub fn path_line_suffix(path: &str) -> (r: Option<(String, usize)>)
    ensures
        (match r {
            Some((p, line)) => Some((p@, line)),
            None => None,
        }) == line_suffix(path@),
{
    let v = chars_of(path);
    let total = v.len();
    let i = match rfind(&v, ':') {
        Some(i) => i,
        None => {
            return None;
        },
    };
    let prefix = slice_of(&v, 0, i);
    assert(prefix@ =~= v@.take(i as int));
    let tail = slice_of(&v, i + 1, total);
    let end = parse_number(&tail);
    if end.is_some() {
        if let Some(j) = rfind(&prefix, ':') {
            let inner = slice_of(&prefix, j + 1, prefix.len());
            if let Some(line) = parse_positive(&inner) {
                let p = text_slice(&prefix, 0, j);
                assert(p@ =~= prefix@.take(j as int));
                return Some((p, line));
            }
        }
    }
    match parse_positive(&tail) {
        Some(line) => Some((text_of(&prefix), line)),
        None => None,
    }
}

// ---- File URLs ----

/// The line that one `key=value` part of a query names.
pub open spec fn part_line(part: Seq<char>) -> Option<usize> {
    let i = find_char(part, '=', 0);
    if i < part.len() && same_letters(part.take(i), "line"@) {
        hinted_line(after(part, i + 1))
    } else {
        None
    }
}

/// The first line that a query's parts name.
pub open spec fn first_line(parts: Seq<Seq<char>>) -> Option<usize>
    decreases parts.len(),
{
    if parts.len() == 0 {
        None
    } else {
        match part_line(parts[0]) {
            Some(line) => Some(line),
            None => first_line(parts.subrange(1, parts.len() as int)),
        }
    }
}

fn line_of_part(part: &[char]) -> (r: Option<usize>)
    ensures
        r == part_line(part@),
{
    let i = find(part, '=', 0);
    if i == part.len() {
        return None;
    }
    let key = slice_of(part, 0, i);
    assert(key@ =~= part@.take(i as int));
    let want = chars_of("line");
    if eq_ignore_case(&key, &want) {
        let rest = slice_of(part, i + 1, part.len());
        line_hint(&rest)
    } else {
        None
    }
}

fn line_of_query(query: &[char]) -> (r: Option<usize>)
    ensures
        r == first_line(split(query@, '&')),
{
    let parts = split_on(query, '&');
    let ghost all = pieces(parts@);
    let mut i: usize = 0;
    assert(all.subrange(0, all.len() as int) =~= all);
    while i < parts.len()
        invariant
            i <= parts@.len(),
            all == pieces(parts@),
            all == split(query@, '&'),
            first_line(all) == first_line(all.subrange(i as int, all.len() as int)),
        decreases parts@.len() - i,
    {
        let ghost rest = all.subrange(i as int, all.len() as int);
        assert(rest[0] == parts@[i as int]@);
        assert(rest.subrange(1, rest.len() as int) =~= all.subrange(i + 1, all.len() as int));
        let found = line_of_part(&parts[i]);
        if found.is_some() {
            return found;
        }
        i += 1;
    }
    None
}

/// What comes before the first `sep`, and what comes after it where there is one.
pub open spec fn cut(s: Seq<char>, sep: char) -> (Seq<char>, Option<Seq<char>>) {
    let i = find_char(s, sep, 0);
    if i < s.len() {
        (s.take(i), Some(after(s, i + 1)))
    } else {
        (s, None)
    }
}

fn cut_at(v: &[char], sep: char) -> (r: (Vec<char>, Option<Vec<char>>))
    ensures
        cut(v@, sep).0 == r.0@,
        match r.1 {
            Some(rest) => cut(v@, sep).1 == Some(rest@),
            None => cut(v@, sep).1 == None::<Seq<char>>,
        },
{
    let i = find(v, sep, 0);
    let head = slice_of(v, 0, i);
    assert(head@ =~= v@.take(i as int));
    if i < v.len() {
        let rest = slice_of(v, i + 1, v.len());
        (head, Some(rest))
    } else {
        assert(head@ =~= v@);
        (head, None)
    }
}

/// Whether a path begins with a drive and a separator.
pub open spec fn on_a_drive(path: Seq<char>) -> bool {
    path.len() >= 3 && is_letter(path[0]) && path[1] == ':' && is_separator(path[2])
}

/// Whether a path begins with a host and what it shares.
pub open spec fn on_a_share(path: Seq<char>) -> bool {
    path.len() >= 3 && is_separator(path[0]) && is_separator(path[1]) && !is_separator(path[2])
        && exists|k: int|
        2 < k < path.len() - 1 && is_separator(#[trigger] path[k]) && !is_separator(path[k + 1])
            && forall|j: int| 2 <= j < k ==> !is_separator(#[trigger] path[j])
}

pub open spec fn is_letter(c: char) -> bool {
    'a' <= c <= 'z' || 'A' <= c <= 'Z'
}

pub open spec fn is_separator(c: char) -> bool {
    c == '/' || c == '\\'
}

/// Whether a path names the same from everywhere.
pub open spec fn absolute(path: Seq<char>, platform: Platform) -> bool {
    match platform {
        Platform::Windows => on_a_drive(path) || on_a_share(path),
        _ => path.len() > 0 && path[0] == '/',
    }
}

/// The path that a file URL with this host and decoded path names where paths have drives
/// and hosts: the slash before a drive goes, and a host that is not the local one leads.
pub open spec fn drive_path(authority: Seq<char>, decoded: Seq<char>) -> Seq<char> {
    let path = replaced(decoded, '/', '\\');
    if authority.len() > 0 && !same_letters(authority, "localhost"@) {
        seq!['\\', '\\'] + authority + path
    } else if path.len() >= 3 && path[0] == '\\' && path[1] < '\u{80}' && path[2] == ':' {
        after(path, 1)
    } else {
        path
    }
}

/// The path that `rest`, what follows `file://`, names, and the line in its query. Only
/// the local host has files, but where a path can name a host.
pub open spec fn url_path(rest: Seq<char>, platform: Platform) -> Result<
    (Seq<char>, Option<usize>),
    Seq<char>,
> {
    let (resource, query) = cut(rest, '?');
    let slash = find_char(resource, '/', 0);
    let authority = resource.take(slash);
    match percent_decoded(after(resource, slash)) {
        Err(e) => Err(e),
        Ok(path) => if platform != Platform::Windows && authority.len() > 0 && !same_letters(
            authority,
            "localhost"@,
        ) {
            Err("Remote file URL is not supported: "@ + authority)
        } else {
            Ok(
                (
                    if platform == Platform::Windows {
                        drive_path(authority, path)
                    } else {
                        path
                    },
                    match query {
                        Some(q) => first_line(split(q, '&')),
                        None => None,
                    },
                ),
            )
        },
    }
}

pub open spec fn url_result(r: Result<(String, Option<usize>), String>) -> Result<
    (Seq<char>, Option<usize>),
    Seq<char>,
> {
    match r {
        Ok((path, line)) => Ok((path@, line)),
        Err(e) => Err(e@),
    }
}

fn drive_path_of(authority: &Vec<char>, decoded: &str) -> (r: String)
    ensures
        r@ == drive_path(authority@, decoded@),
{
    let v = chars_of(decoded);
    let path = replace(&v, '/', '\\');
    let local = chars_of("localhost");
    if authority.len() > 0 && !eq_ignore_case(authority, &local) {
        let mut out: Vec<char> = vec!['\\', '\\'];
        push_all(&mut out, authority);
        push_all(&mut out, &path);
        assert(out@ =~= seq!['\\', '\\'] + authority@ + path@);
        text_of(&out)
    } else if path.len() >= 3 && path[0] == '\\' && path[1] < '\u{80}' && path[2] == ':' {
        text_slice(&path, 1, path.len())
    } else {
        text_of(&path)
    }
}

fn separates(c: char) -> (r: bool)
    ensures
        r == is_separator(c),
{
    c == '/' || c == '\\'
}

/// Whether a path names the same from everywhere.
pub fn is_absolute(path: &str, platform: Platform) -> (r: bool)
    ensures
        r == absolute(path@, platform),
{
    let v = chars_of(path);
    match platform {
        Platform::Windows => {
            if v.len() < 3 {
                return false;
            }
            let c = v[0];
            if (('a' <= c && c <= 'z') || ('A' <= c && c <= 'Z')) && v[1] == ':' && separates(v[2]) {
                return true;
            }
            if !separates(v[0]) || !separates(v[1]) || separates(v[2]) {
                return false;
            }
            let mut k: usize = 3;
            while k < v.len() && !separates(v[k])
                invariant
                    3 <= k <= v@.len(),
                    forall|j: int| 2 <= j < k ==> !is_separator(#[trigger] v@[j]),
                decreases v@.len() - k,
            {
                k += 1;
            }
            let shares = k < v.len() && k + 1 < v.len() && !separates(v[k + 1]);
            proof {
                if shares {
                    assert(is_separator(v@[k as int]) && !is_separator(v@[k + 1]));
                }
                if on_a_share(v@) {
                    let i = choose|i: int|
                        2 < i < v@.len() - 1 && is_separator(#[trigger] v@[i]) && !is_separator(
                            v@[i + 1],
                        ) && forall|j: int| 2 <= j < i ==> !is_separator(#[trigger] v@[j]);
                    assert(i >= k);
                    assert(i <= k);
                }
            }
            shares
        },
        _ => v.len() > 0 && v[0] == '/',
    }
}

fn url_path_of(rest: &[char], platform: Platform) -> (r: Result<(String, Option<usize>), String>)
    ensures
        url_result(r) == url_path(rest@, platform),
{
    let (resource, query) = cut_at(rest, '?');
    let slash = find(&resource, '/', 0);
    let authority = slice_of(&resource, 0, slash);
    assert(authority@ =~= resource@.take(slash as int));
    let encoded = text_slice(&resource, slash, resource.len());
    let path = match percent_decode(encoded.as_str()) {
        Ok(path) => path,
        Err(e) => {
            return Err(e);
        },
    };
    let local = chars_of("localhost");
    if platform != Platform::Windows && authority.len() > 0 && !eq_ignore_case(
        &authority,
        &local,
    ) {
        let name = text_of(&authority);
        return Err(cat("Remote file URL is not supported: ", name.as_str()));
    }
    let line = match query {
        Some(q) => line_of_query(&q),
        None => None,
    };
    if platform == Platform::Windows {
        Ok((drive_path_of(&authority, path.as_str()), line))
    } else {
        Ok((path, line))
    }
}

/// The path that `rest`, what follows `file://`, names, and the line in its query.
pub fn parse_file_url_path(rest: &str, platform: Platform) -> (r: Result<
    (String, Option<usize>),
    String,
>)
    ensures
        url_result(r) == url_path(rest@, platform),
{
    let v = chars_of(rest);
    url_path_of(&v, platform)
}

// ---- Links ----

/// The absolute path that a link names and the line that its fragment or query
/// names.
pub open spec fn link_resource(raw: Seq<char>, platform: Platform) -> Result<LinkView, Seq<char>> {
    let raw = trim(raw, Class::White);
    if raw.len() == 0 {
        Err("Empty file link."@)
    } else {
        let (resource, fragment) = cut(raw, '#');
        let hint = match fragment {
            Some(f) => hinted_line(f),
            None => None,
        };
        let named = if has_prefix(resource, "file://"@) {
            url_path(after(resource, 7), platform)
        } else {
            Ok((resource, None))
        };
        match named {
            Err(e) => Err(e),
            Ok((path, line)) => if !absolute(path, platform) {
                Err("File link is not absolute: "@ + path)
            } else {
                Ok(LinkView { path, line: if hint is Some { hint } else { line } })
            },
        }
    }
}

/// Where a link points, given whether the path that it names is there: a path
/// that does not, and comes with no line, may carry one as a suffix.
pub open spec fn link_target(raw: Seq<char>, present: bool, platform: Platform) -> Result<
    LinkView,
    Seq<char>,
> {
    match link_resource(raw, platform) {
        Err(e) => Err(e),
        Ok(link) => if present || link.line is Some {
            Ok(link)
        } else {
            match line_suffix(link.path) {
                Some((path, line)) => Ok(LinkView { path, line: Some(line) }),
                None => Ok(link),
            }
        },
    }
}

/// The absolute path that a link names and the line that its fragment or query
/// names.
pub fn parse_resource(raw: &str, platform: Platform) -> (r: Result<Link, String>)
    ensures
        link_of(r) == link_resource(raw@, platform),
{
    let v = chars_of(raw);
    let raw = trimmed(&v, Class::White);
    if raw.len() == 0 {
        return Err("Empty file link.".to_string());
    }
    let (resource, fragment) = cut_at(&raw, '#');
    let hint = match fragment {
        Some(f) => line_hint(&f),
        None => None,
    };
    proof {
        reveal_strlit("file://");
    }
    let named = match strip(&resource, "file://") {
        Some(rest) => url_path_of(&rest, platform),
        None => Ok((text_of(&resource), None)),
    };
    match named {
        Err(e) => Err(e),
        Ok((path, line)) => {
            if !is_absolute(path.as_str(), platform) {
                return Err(cat("File link is not absolute: ", path.as_str()));
            }
            Ok(Link { path, line: if hint.is_some() { hint } else { line } })
        },
    }
}

/// Where a link points, given whether the path that [`parse_resource`] finds in
/// it exists.
pub fn parse_link(raw: &str, present: bool, platform: Platform) -> (r: Result<Link, String>)
    ensures
        link_of(r) == link_target(raw@, present, platform),
{
    match parse_resource(raw, platform) {
        Err(e) => Err(e),
        Ok(link) => {
            if present || link.line.is_some() {
                return Ok(link);
            }
            match path_line_suffix(link.path.as_str()) {
                Some((path, line)) => Ok(Link { path, line: Some(line) }),
                None => Ok(link),
            }
        },
    }
}

// ---- Requests ----

/// The change that a link shows instead of the file: one of a repository's.
pub struct LinkDiff {
    pub root: String,
    pub rel: String,
    pub kind: String,
}

#[verifier::ext_equal]
pub struct LinkDiffView {
    pub root: Seq<char>,
    pub rel: Seq<char>,
    pub kind: Seq<char>,
}

impl View for LinkDiff {
    type V = LinkDiffView;

    open spec fn view(&self) -> LinkDiffView {
        LinkDiffView { root: self.root@, rel: self.rel@, kind: self.kind@ }
    }
}

impl Clone for LinkDiff {
    fn clone(&self) -> (r: LinkDiff)
        ensures
            r@ == self@,
    {
        LinkDiff { root: self.root.clone(), rel: self.rel.clone(), kind: self.kind.clone() }
    }
}

/// What the Explorer is asked to open: a path below its root.
pub struct OpenRequest {
    pub root: String,
    pub path: String,
    pub is_dir: bool,
    pub line: Option<usize>,
    pub diff: Option<LinkDiff>,
}

#[verifier::ext_equal]
pub struct RequestView {
    pub root: Seq<char>,
    pub path: Seq<char>,
    pub is_dir: bool,
    pub line: Option<usize>,
    pub diff: Option<LinkDiffView>,
}

pub open spec fn diff_view(d: Option<LinkDiff>) -> Option<LinkDiffView> {
    match d {
        Some(d) => Some(d@),
        None => None,
    }
}

impl View for OpenRequest {
    type V = RequestView;

    open spec fn view(&self) -> RequestView {
        RequestView {
            root: self.root@,
            path: self.path@,
            is_dir: self.is_dir,
            line: self.line,
            diff: diff_view(self.diff),
        }
    }
}

pub open spec fn request_view(r: Option<OpenRequest>) -> Option<RequestView> {
    match r {
        Some(r) => Some(r@),
        None => None,
    }
}

/// The Explorer pane that requests go to, and the folder it shows.
pub struct Target {
    pub pane_id: String,
    pub root: String,
}

#[verifier::ext_equal]
pub struct TargetView {
    pub pane_id: Seq<char>,
    pub root: Seq<char>,
}

impl View for Target {
    type V = TargetView;

    open spec fn view(&self) -> TargetView {
        TargetView { pane_id: self.pane_id@, root: self.root@ }
    }
}

impl Clone for Target {
    fn clone(&self) -> (r: Target)
        ensures
            r@ == self@,
    {
        Target { pane_id: self.pane_id.clone(), root: self.root.clone() }
    }
}

/// Whether a path names something below the root it is taken from.
pub fn safe_relative(path: &str) -> (r: bool)
    ensures
        r == stays_below(path@),
{
    is_below(path)
}

/// Whether a character may stand in a file name that a pane's id is turned into.
pub open spec fn name_char(c: char) -> bool {
    is_digit(c) || ('a' <= c && c <= 'z') || ('A' <= c && c <= 'Z') || c == '-' || c == '_'
}

/// `value` with an underscore in place of each character that is not a letter
/// or a digit of ASCII, a hyphen or an underscore.
pub open spec fn safe_name(value: Seq<char>) -> Seq<char> {
    value.map_values(|c: char| if name_char(c) { c } else { '_' })
}

/// A file name made of a pane's id.
pub fn safe_component(value: &str) -> (r: String)
    ensures
        r@ == safe_name(value@),
{
    let v = chars_of(value);
    let mut out: Vec<char> = Vec::new();
    let mut i: usize = 0;
    while i < v.len()
        invariant
            i <= v@.len(),
            v@ == value@,
            out@ =~= safe_name(value@).take(i as int),
        decreases v@.len() - i,
    {
        let c = v[i];
        let fits = ('0' <= c && c <= '9') || ('a' <= c && c <= 'z') || ('A' <= c && c <= 'Z') || c
            == '-' || c == '_';
        out.push(if fits { c } else { '_' });
        i += 1;
    }
    text_of(&out)
}

/// A name made of an id has the id's length, only file name characters, and is
/// made of itself.
pub proof fn law_safe_names(value: Seq<char>)
    ensures
        safe_name(value).len() == value.len(),
        forall|i: int| 0 <= i < value.len() ==> name_char(#[trigger] safe_name(value)[i]),
        safe_name(safe_name(value)) == safe_name(value),
{
    assert(safe_name(safe_name(value)) =~= safe_name(value));
}

/// Where a pane's requests are left, below the state directory.
pub open spec fn mailbox(dir: Seq<char>, pane_id: Seq<char>) -> Seq<char> {
    under_dir(under_dir(dir, "quick-open"@), safe_name(pane_id) + ".json"@)
}

/// Where a pane's requests are left, where there is a state directory.
pub fn request_path(state_dir: Option<&str>, pane_id: &str) -> (r: Option<String>)
    ensures
        opt_text(r) == (match state_dir {
            Some(dir) => Some(mailbox(dir@, pane_id@)),
            None => None,
        }),
{
    match state_dir {
        None => None,
        Some(dir) => {
            let folder = join_path(dir, "quick-open");
            let name = safe_component(pane_id);
            let file = cat(name.as_str(), ".json");
            Some(join_path(folder.as_str(), file.as_str()))
        },
    }
}

// ---- The inbox ----

/// A pane's mailbox, and the request that was taken out of it and not yet
/// handled.
pub struct Inbox {
    path: Option<String>,
    pending: Option<OpenRequest>,
}

/// What a mailbox that held `read` leaves pending.
pub open spec fn polled(pending: Option<RequestView>, path: Option<Seq<char>>, read: Option<RequestView>) -> Option<RequestView> {
    if pending is Some || path is None {
        pending
    } else {
        match read {
            Some(request) if stays_below(request.path) => Some(request),
            _ => None,
        }
    }
}

impl Inbox {
    /// The request that is not yet handled.
    pub closed spec fn waiting(&self) -> Option<RequestView> {
        request_view(self.pending)
    }

    /// Where requests arrive.
    pub closed spec fn location(&self) -> Option<Seq<char>> {
        opt_text(self.path)
    }

    /// The inbox of the pane with this id, if the pane has one.
    pub fn for_current_pane(pane_id: Option<&str>, state_dir: Option<&str>) -> (r: Inbox)
        ensures
            r.waiting() == None::<RequestView>,
            r.location() == (match (pane_id, state_dir) {
                (Some(id), Some(dir)) if id@.len() > 0 => Some(mailbox(dir@, id@)),
                _ => None,
            }),
    {
        let path = match pane_id {
            Some(id) => if id.is_empty() {
                None
            } else {
                request_path(state_dir, id)
            },
            None => None,
        };
        Inbox { path, pending: None }
    }

    /// The file to read, and remove, before the next poll: none while a request
    /// waits.
    pub fn source(&self) -> (r: Option<&String>)
        ensures
            (match r {
                Some(s) => Some(s@),
                None => None,
            }) == (if self.waiting() is Some {
                None
            } else {
                self.location()
            }),
    {
        if self.pending.is_some() {
            return None;
        }
        match &self.path {
            Some(path) => Some(path),
            None => None,
        }
    }

    /// Takes in what the mailbox's file held. A request for a path that leaves
    /// the root is dropped.
    pub fn poll(&mut self, read: Option<OpenRequest>) -> (r: bool)
        ensures
            final(self).location() == old(self).location(),
            final(self).waiting() == polled(
                old(self).waiting(),
                old(self).location(),
                request_view(read),
            ),
            r == final(self).waiting() is Some,
    {
        if self.pending.is_some() {
            return true;
        }
        if self.path.is_none() {
            return false;
        }
        match read {
            Some(request) => {
                if safe_relative(request.path.as_str()) {
                    self.pending = Some(request);
                    true
                } else {
                    false
                }
            },
            None => false,
        }
    }

    /// Polls, and hands the waiting request over.
    pub fn take(&mut self, read: Option<OpenRequest>) -> (r: Option<OpenRequest>)
        ensures
            final(self).location() == old(self).location(),
            final(self).waiting() == None::<RequestView>,
            request_view(r) == polled(
                old(self).waiting(),
                old(self).location(),
                request_view(read),
            ),
    {
        let _ = self.poll(read);
        self.pending.take()
    }

    /// Polls, and shows the waiting request.
    pub fn peek(&mut self, read: Option<OpenRequest>) -> (r: Option<&OpenRequest>)
        ensures
            final(self).location() == old(self).location(),
            final(self).waiting() == polled(
                old(self).waiting(),
                old(self).location(),
                request_view(read),
            ),
            (match r {
                Some(request) => Some(request@),
                None => None,
            }) == final(self).waiting(),
    {
        let _ = self.poll(read);
        match &self.pending {
            Some(request) => Some(request),
            None => None,
        }
    }

    /// Makes `request` the one that waits.
    pub fn put_back(&mut self, request: OpenRequest)
        ensures
            final(self).location() == old(self).location(),
            final(self).waiting() == Some(request@),
    {
        self.pending = Some(request);
    }
}

/// A request that waits, one that was put back among them, stays the one that
/// waits whatever arrives.
pub proof fn law_waiting_request_stays(
    pending: Option<RequestView>,
    path: Option<Seq<char>>,
    read: Option<RequestView>,
)
    requires
        pending is Some,
    ensures
        polled(pending, path, read) == pending,
{
}

/// Whatever arrives, nothing that leaves the root starts to wait.
pub proof fn law_only_safe_requests_arrive(path: Option<Seq<char>>, read: Option<RequestView>)
    ensures
        polled(None, path, read) matches Some(request) ==> stays_below(request.path),
{
}

// ---- Finding the Explorer ----

/// What the host says of one pane.
pub struct PaneInfo {
    pub pane_id: Option<String>,
    pub workspace_id: Option<String>,
    pub tab_id: Option<String>,
    pub cwd: Option<String>,
    pub foreground_cwd: Option<String>,
    pub focused: bool,
    pub is_agent: bool,
    /// When the pane last said that it is an Explorer, in seconds.
    pub explorer_stamp: Option<String>,
}

#[verifier::ext_equal]
pub struct PaneView {
    pub pane_id: Option<Seq<char>>,
    pub workspace_id: Option<Seq<char>>,
    pub tab_id: Option<Seq<char>>,
    pub cwd: Option<Seq<char>>,
    pub foreground_cwd: Option<Seq<char>>,
    pub focused: bool,
    pub is_agent: bool,
    pub explorer_stamp: Option<Seq<char>>,
}

impl View for PaneInfo {
    type V = PaneView;

    open spec fn view(&self) -> PaneView {
        PaneView {
            pane_id: opt_text(self.pane_id),
            workspace_id: opt_text(self.workspace_id),
            tab_id: opt_text(self.tab_id),
            cwd: opt_text(self.cwd),
            foreground_cwd: opt_text(self.foreground_cwd),
            focused: self.focused,
            is_agent: self.is_agent,
            explorer_stamp: opt_text(self.explorer_stamp),
        }
    }
}

pub open spec fn panes_view(v: Seq<PaneInfo>) -> Seq<PaneView> {
    v.map_values(|p: PaneInfo| p@)
}

/// Where an action was started.
pub struct Context {
    pub workspace_id: String,
    pub tab_id: String,
    pub focused_pane_cwd: Option<String>,
}

#[verifier::ext_equal]
pub struct ContextView {
    pub workspace_id: Seq<char>,
    pub tab_id: Seq<char>,
    pub focused_pane_cwd: Option<Seq<char>>,
}

impl View for Context {
    type V = ContextView;

    open spec fn view(&self) -> ContextView {
        ContextView {
            workspace_id: self.workspace_id@,
            tab_id: self.tab_id@,
            focused_pane_cwd: opt_text(self.focused_pane_cwd),
        }
    }
}

/// The first pane that has the focus.
pub open spec fn focused_pane(panes: Seq<PaneView>) -> Option<PaneView>
    decreases panes.len(),
{
    if panes.len() == 0 {
        None
    } else if panes[0].focused {
        Some(panes[0])
    } else {
        focused_pane(panes.subrange(1, panes.len() as int))
    }
}

/// When a pane last said that it is an Explorer, where that is no more than
/// `stale` seconds ago.
pub open spec fn fresh_stamp(pane: PaneView, now: u64, stale: u64) -> Option<u64> {
    match pane.explorer_stamp {
        Some(text) => match decimal(text, u64::MAX as nat) {
            Some(stamp) => if now <= stamp || now - stamp <= stale {
                Some(stamp as u64)
            } else {
                None
            },
            None => None,
        },
        None => None,
    }
}

/// The pane among `panes` that is no agent's, in this workspace and tab, with
/// the latest fresh stamp; of several the last.
pub open spec fn live_explorer(
    panes: Seq<PaneView>,
    workspace: Option<Seq<char>>,
    tab: Option<Seq<char>>,
    now: u64,
    stale: u64,
) -> Option<(u64, PaneView)>
    decreases panes.len(),
{
    if panes.len() == 0 {
        None
    } else {
        let before = live_explorer(panes.drop_last(), workspace, tab, now, stale);
        let pane = panes.last();
        if pane.is_agent || pane.workspace_id != workspace || pane.tab_id != tab {
            before
        } else {
            match (fresh_stamp(pane, now, stale), before) {
                (None, _) => before,
                (Some(stamp), Some((best, _))) if best > stamp => before,
                (Some(stamp), _) => Some((stamp, pane)),
            }
        }
    }
}

/// The workspace and the tab that an action belongs to: those of its context,
/// or else of the pane that has the focus.
pub open spec fn action_place(context: ContextView, panes: Seq<PaneView>) -> (
    Option<Seq<char>>,
    Option<Seq<char>>,
) {
    let focused = focused_pane(panes);
    (
        if context.workspace_id.len() > 0 {
            Some(context.workspace_id)
        } else if focused is Some {
            focused->0.workspace_id
        } else {
            None
        },
        if context.tab_id.len() > 0 {
            Some(context.tab_id)
        } else if focused is Some {
            focused->0.tab_id
        } else {
            None
        },
    )
}

/// The folder that the Explorer in `pane` shows: the pane's own, or else the
/// action's, whichever of the two is one of `dirs`.
pub open spec fn explorer_root(
    pane: PaneView,
    context: ContextView,
    dirs: Seq<Seq<char>>,
) -> Option<Seq<char>> {
    let own = if pane.foreground_cwd is Some {
        pane.foreground_cwd
    } else {
        pane.cwd
    };
    if own is Some && dirs.contains(own->0) {
        own
    } else if context.focused_pane_cwd is Some && dirs.contains(context.focused_pane_cwd->0) {
        context.focused_pane_cwd
    } else {
        None
    }
}

/// The live Explorer of the current tab, where there is one with a folder and
/// an id.
pub open spec fn located(
    context: ContextView,
    panes: Seq<PaneView>,
    now: u64,
    stale: u64,
    dirs: Seq<Seq<char>>,
) -> Result<TargetView, Seq<char>> {
    let (workspace, tab) = action_place(context, panes);
    match live_explorer(panes, workspace, tab, now, stale) {
        None => Err("No live Explorer is open in the current tab."@),
        Some((_, pane)) => match explorer_root(pane, context, dirs) {
            None => Err("Could not determine the Explorer root folder."@),
            Some(root) => match pane.pane_id {
                None => Err("Explorer pane has no id."@),
                Some(pane_id) => Ok(TargetView { pane_id, root }),
            },
        },
    }
}

pub open spec fn target_result(r: Result<Target, String>) -> Result<TargetView, Seq<char>> {
    match r {
        Ok(t) => Ok(t@),
        Err(e) => Err(e@),
    }
}

pub open spec fn opt_str(v: Option<&str>) -> Option<Seq<char>> {
    match v {
        Some(s) => Some(s@),
        None => None,
    }
}

fn as_str(v: &Option<String>) -> (r: Option<&str>)
    ensures
        opt_str(r) == opt_text(*v),
{
    match v {
        Some(s) => Some(s.as_str()),
        None => None,
    }
}

fn same_opt(a: Option<&str>, b: Option<&str>) -> (r: bool)
    ensures
        r == (opt_str(a) == opt_str(b)),
{
    match (a, b) {
        (Some(x), Some(y)) => eq_text(x, y),
        (None, None) => true,
        _ => false,
    }
}

fn find_focused(panes: &[PaneInfo]) -> (r: Option<usize>)
    ensures
        match r {
            Some(i) => i < panes@.len() && focused_pane(panes_view(panes@)) == Some(
                panes_view(panes@)[i as int],
            ),
            None => focused_pane(panes_view(panes@)) is None,
        },
{
    let ghost all = panes_view(panes@);
    let mut i: usize = 0;
    assert(all.subrange(0, all.len() as int) =~= all);
    while i < panes.len()
        invariant
            i <= panes@.len(),
            all == panes_view(panes@),
            focused_pane(all) == focused_pane(all.subrange(i as int, all.len() as int)),
        decreases panes@.len() - i,
    {
        let ghost rest = all.subrange(i as int, all.len() as int);
        assert(rest[0] == panes@[i as int]@);
        if panes[i].focused {
            return Some(i);
        }
        assert(rest.subrange(1, rest.len() as int) =~= all.subrange(i + 1, all.len() as int));
        i += 1;
    }
    None
}

fn stamp_of(pane: &PaneInfo, now: u64, stale: u64) -> (r: Option<u64>)
    ensures
        r == fresh_stamp(pane@, now, stale),
{
    match &pane.explorer_stamp {
        Some(text) => {
            let v = chars_of(text.as_str());
            match parse_u64(&v) {
                Some(stamp) => {
                    if now <= stamp || now - stamp <= stale {
                        Some(stamp)
                    } else {
                        None
                    }
                },
                None => None,
            }
        },
        None => None,
    }
}

fn find_explorer(
    panes: &[PaneInfo],
    workspace: Option<&str>,
    tab: Option<&str>,
    now: u64,
    stale: u64,
) -> (r: Option<usize>)
    ensures
        (match r {
            Some(i) => i < panes@.len() && (live_explorer(
                panes_view(panes@),
                opt_str(workspace),
                opt_str(tab),
                now,
                stale,
            ) matches Some((_, pane)) && pane == panes@[i as int]@),
            None => live_explorer(
                panes_view(panes@),
                opt_str(workspace),
                opt_str(tab),
                now,
                stale,
            ) is None,
        }),
{
    let ghost all = panes_view(panes@);
    let mut best: Option<(u64, usize)> = None;
    let mut i: usize = 0;
    while i < panes.len()
        invariant
            i <= panes@.len(),
            all == panes_view(panes@),
            match best {
                Some((stamp, k)) => k < panes@.len() && live_explorer(
                    all.take(i as int),
                    opt_str(workspace),
                    opt_str(tab),
                    now,
                    stale,
                ) == Some((stamp, panes@[k as int]@)),
                None => live_explorer(
                    all.take(i as int),
                    opt_str(workspace),
                    opt_str(tab),
                    now,
                    stale,
                ) is None,
            },
        decreases panes@.len() - i,
    {
        let pane = &panes[i];
        assert(all.take(i + 1).drop_last() =~= all.take(i as int));
        assert(all.take(i + 1).last() == panes@[i as int]@);
        if !pane.is_agent && same_opt(as_str(&pane.workspace_id), workspace) && same_opt(
            as_str(&pane.tab_id),
            tab,
        ) {
            if let Some(stamp) = stamp_of(pane, now, stale) {
                match best {
                    Some((top, _)) if top > stamp => {},
                    _ => {
                        best = Some((stamp, i));
                    },
                }
            }
        }
        i += 1;
    }
    assert(all.take(i as int) =~= all);
    match best {
        Some((_, k)) => Some(k),
        None => None,
    }
}

fn root_of(pane: &PaneInfo, context: &Context, dirs: &Vec<String>) -> (r: Option<String>)
    ensures
        opt_text(r) == explorer_root(pane@, context@, texts(dirs@)),
{
    let own = if pane.foreground_cwd.is_some() {
        as_str(&pane.foreground_cwd)
    } else {
        as_str(&pane.cwd)
    };
    if let Some(dir) = own {
        if holds(dirs, dir) {
            return Some(dir.to_string());
        }
    }
    if let Some(dir) = as_str(&context.focused_pane_cwd) {
        if holds(dirs, dir) {
            return Some(dir.to_string());
        }
    }
    None
}

fn place_of(named: &String, fallback: Option<&str>) -> (r: Option<String>)
    ensures
        opt_text(r) == (if named@.len() > 0 {
            Some(named@)
        } else {
            opt_str(fallback)
        }),
{
    if named.as_str().is_empty() {
        match fallback {
            Some(s) => Some(s.to_string()),
            None => None,
        }
    } else {
        Some(named.clone())
    }
}

/// The live Explorer of the current tab. `dirs` holds the working directories
/// among those of `panes` and `context` that exist, `stale` how many seconds a
/// pane's word that it is an Explorer holds.
pub fn locate_target(
    context: &Context,
    panes: &[PaneInfo],
    now: u64,
    stale: u64,
    dirs: &Vec<String>,
) -> (r: Result<Target, String>)
    ensures
        target_result(r) == located(context@, panes_view(panes@), now, stale, texts(dirs@)),
{
    let focused = find_focused(panes);
    let (w, t) = match focused {
        Some(i) => (as_str(&panes[i].workspace_id), as_str(&panes[i].tab_id)),
        None => (None, None),
    };
    let workspace = place_of(&context.workspace_id, w);
    let tab = place_of(&context.tab_id, t);
    match find_explorer(panes, as_str(&workspace), as_str(&tab), now, stale) {
        None => Err("No live Explorer is open in the current tab.".to_string()),
        Some(i) => {
            let pane = &panes[i];
            match root_of(pane, context, dirs) {
                None => Err("Could not determine the Explorer root folder.".to_string()),
                Some(root) => match &pane.pane_id {
                    None => Err("Explorer pane has no id.".to_string()),
                    Some(id) => Ok(Target { pane_id: id.clone(), root }),
                },
            }
        },
    }
}

// ---- Sending a request ----

/// What is left to do for a request to reach its mailbox.
pub enum Delivery {
    /// Create this directory and what it lies in.
    MakeDir(String),
    /// Encode the request.
    Encode(OpenRequest),
    /// Write what was encoded to this file.
    Write(String),
    /// Give the first file the second's name.
    Rename(String, String),
    /// Remove this file.
    Remove(String),
    Done(Result<(), String>),
}

#[verifier::ext_equal]
pub enum DeliveryView {
    MakeDir(Seq<char>),
    Encode(RequestView),
    Write(Seq<char>),
    Rename(Seq<char>, Seq<char>),
    Remove(Seq<char>),
    Fail(Seq<char>),
    Sent,
}

impl View for Delivery {
    type V = DeliveryView;

    open spec fn view(&self) -> DeliveryView {
        match *self {
            Delivery::MakeDir(d) => DeliveryView::MakeDir(d@),
            Delivery::Encode(r) => DeliveryView::Encode(r@),
            Delivery::Write(f) => DeliveryView::Write(f@),
            Delivery::Rename(a, b) => DeliveryView::Rename(a@, b@),
            Delivery::Remove(f) => DeliveryView::Remove(f@),
            Delivery::Done(Ok(())) => DeliveryView::Sent,
            Delivery::Done(Err(e)) => DeliveryView::Fail(e@),
        }
    }
}

/// The file that a request is written to before it is published under its
/// mailbox's name.
pub open spec fn draft_file(dir: Seq<char>, pane_id: Seq<char>, process: Seq<char>) -> Seq<char> {
    let stem = if pane_id.len() == 0 {
        ".json"@
    } else {
        safe_name(pane_id)
    };
    under_dir(under_dir(dir, "quick-open"@), stem + ".tmp-"@ + process)
}

/// How each of the steps of a delivery ended: nothing, or why it failed.
pub type Ended = Option<Seq<char>>;

pub open spec fn ended(r: Result<(), String>) -> Ended {
    match r {
        Ok(()) => None,
        Err(e) => Some(e@),
    }
}

pub open spec fn ends(v: Seq<Result<(), String>>) -> Seq<Ended> {
    v.map_values(|r: Result<(), String>| ended(r))
}

/// The step after those that ended as `done` says: make the directory, encode,
/// write a draft, and publish it; where a file is in the way, remove it and
/// publish again.
pub open spec fn delivery_step(
    dir: Option<Seq<char>>,
    pane_id: Seq<char>,
    process: Seq<char>,
    request: RequestView,
    done: Seq<Ended>,
) -> DeliveryView {
    match dir {
        None => DeliveryView::Fail("Could not resolve the Sidebar state directory."@),
        Some(dir) => {
            let file = mailbox(dir, pane_id);
            let draft = draft_file(dir, pane_id, process);
            if done.len() == 0 {
                DeliveryView::MakeDir(under_dir(dir, "quick-open"@))
            } else if done[0] is Some {
                DeliveryView::Fail("Could not create the Quick Open mailbox: "@ + done[0]->0)
            } else if done.len() == 1 {
                DeliveryView::Encode(request)
            } else if done[1] is Some {
                DeliveryView::Fail("Could not encode the Quick Open request: "@ + done[1]->0)
            } else if done.len() == 2 {
                DeliveryView::Write(draft)
            } else if done[2] is Some {
                DeliveryView::Fail("Could not write the Quick Open request: "@ + done[2]->0)
            } else if done.len() == 3 {
                DeliveryView::Rename(draft, file)
            } else if done[3] is None {
                DeliveryView::Sent
            } else if done.len() == 4 {
                DeliveryView::Remove(file)
            } else if done.len() == 5 {
                DeliveryView::Rename(draft, file)
            } else if done[5] is Some {
                DeliveryView::Fail("Could not publish the Quick Open request: "@ + done[5]->0)
            } else {
                DeliveryView::Sent
            }
        },
    }
}

fn failed(what: &str, r: &Result<(), String>) -> (e: Option<Delivery>)
    ensures
        match ended(*r) {
            None => e is None,
            Some(why) => e matches Some(d) && d@ == DeliveryView::Fail(what@ + why),
        },
{
    match r {
        Ok(()) => None,
        Err(why) => Some(Delivery::Done(Err(cat(what, why.as_str())))),
    }
}

fn draft_of(dir: &str, pane_id: &str, process: &str) -> (r: String)
    ensures
        r@ == draft_file(dir@, pane_id@, process@),
{
    let stem = if pane_id.is_empty() {
        ".json".to_string()
    } else {
        safe_component(pane_id)
    };
    let name = cat3(stem.as_str(), ".tmp-", process);
    let folder = join_path(dir, "quick-open");
    join_path(folder.as_str(), name.as_str())
}

fn mailbox_of(dir: &str, pane_id: &str) -> (r: String)
    ensures
        r@ == mailbox(dir@, pane_id@),
{
    let folder = join_path(dir, "quick-open");
    let name = safe_component(pane_id);
    let file = cat(name.as_str(), ".json");
    join_path(folder.as_str(), file.as_str())
}

/// The next step of bringing `request` to the pane's mailbox, after the steps
/// that ended as `done` says. `process` is the number of this process.
pub fn deliver(
    state_dir: Option<&str>,
    pane_id: &str,
    process: &str,
    request: OpenRequest,
    done: &[Result<(), String>],
) -> (r: Delivery)
    ensures
        r@ == delivery_step(opt_str(state_dir), pane_id@, process@, request@, ends(done@)),
{
    let dir = match state_dir {
        Some(dir) => dir,
        None => {
            return Delivery::Done(
                Err("Could not resolve the Sidebar state directory.".to_string()),
            );
        },
    };
    let ghost all = ends(done@);
    let n = done.len();
    if n == 0 {
        return Delivery::MakeDir(join_path(dir, "quick-open"));
    }
    assert(all[0] == ended(done@[0]));
    if let Some(e) = failed("Could not create the Quick Open mailbox: ", &done[0]) {
        return e;
    }
    if n == 1 {
        return Delivery::Encode(request);
    }
    assert(all[1] == ended(done@[1]));
    if let Some(e) = failed("Could not encode the Quick Open request: ", &done[1]) {
        return e;
    }
    let draft = draft_of(dir, pane_id, process);
    if n == 2 {
        return Delivery::Write(draft);
    }
    assert(all[2] == ended(done@[2]));
    if let Some(e) = failed("Could not write the Quick Open request: ", &done[2]) {
        return e;
    }
    let file = mailbox_of(dir, pane_id);
    if n == 3 {
        return Delivery::Rename(draft, file);
    }
    assert(all[3] == ended(done@[3]));
    if done[3].is_ok() {
        return Delivery::Done(Ok(()));
    }
    if n == 4 {
        return Delivery::Remove(file);
    }
    if n == 5 {
        return Delivery::Rename(draft, file);
    }
    assert(all[5] == ended(done@[5]));
    match failed("Could not publish the Quick Open request: ", &done[5]) {
        Some(e) => e,
        None => Delivery::Done(Ok(())),
    }
}

/// The request for `path` below the target's root.
pub open spec fn request_for(
    target: TargetView,
    path: Seq<char>,
    is_dir: bool,
    line: Option<usize>,
    diff: Option<LinkDiffView>,
) -> RequestView {
    RequestView { root: target.root, path, is_dir, line, diff }
}

fn make_request(
    target: &Target,
    path: &str,
    is_dir: bool,
    line: Option<usize>,
    diff: Option<LinkDiff>,
) -> (r: OpenRequest)
    ensures
        r@ == request_for(target@, path@, is_dir, line, diff_view(diff)),
{
    OpenRequest { root: target.root.clone(), path: path.to_string(), is_dir, line, diff }
}

/// The next step of asking the target to open `path`.
pub fn send_request(
    target: &Target,
    path: &str,
    is_dir: bool,
    line: Option<usize>,
    state_dir: Option<&str>,
    process: &str,
    done: &[Result<(), String>],
) -> (r: Delivery)
    ensures
        r@ == delivery_step(
            opt_str(state_dir),
            target.pane_id@,
            process@,
            request_for(target@, path@, is_dir, line, None),
            ends(done@),
        ),
{
    let request = make_request(target, path, is_dir, line, None);
    deliver(state_dir, target.pane_id.as_str(), process, request, done)
}

/// A request is reported as sent only once a draft of it was written and given
/// the mailbox's name.
pub proof fn law_sent_means_published(
    dir: Option<Seq<char>>,
    pane_id: Seq<char>,
    process: Seq<char>,
    request: RequestView,
    done: Seq<Ended>,
)
    requires
        delivery_step(dir, pane_id, process, request, done) == DeliveryView::Sent,
    ensures
        dir is Some,
        done.len() >= 4,
        done[2] is None,
        done[3] is None || (done.len() >= 6 && done[5] is None),
{
}

// ---- A clicked link ----

/// Which of a file's changes a link shows: the unstaged one before the staged.
pub open spec fn diff_kind(status: StatusView, rel: Seq<char>) -> Option<Seq<char>> {
    let i = entry_at(status.unstaged, rel, 0);
    if i < status.unstaged.len() {
        Some(if status.unstaged[i].letter == 'U' { "untracked"@ } else { "worktree"@ })
    } else if entry_at(status.staged, rel, 0) < status.staged.len() {
        Some("staged"@)
    } else {
        None
    }
}

/// The first entry at or after `i` with this path, or the length.
pub open spec fn entry_at(v: Seq<EntryView>, path: Seq<char>, i: int) -> int
    decreases v.len() - i,
{
    if i >= v.len() {
        v.len() as int
    } else if v[i].path == path {
        i
    } else {
        entry_at(v, path, i + 1)
    }
}

fn find_entry(v: &Vec<FileEntry>, path: &str) -> (r: usize)
    ensures
        r == entry_at(entries(v@), path@, 0),
        r <= v@.len(),
{
    let ghost all = entries(v@);
    let mut i: usize = 0;
    while i < v.len()
        invariant
            i <= v@.len(),
            all == entries(v@),
            entry_at(all, path@, 0) == entry_at(all, path@, i as int),
        decreases v@.len() - i,
    {
        assert(all[i as int] == v@[i as int]@);
        if eq_text(v[i].path.as_str(), path) {
            return i;
        }
        i += 1;
    }
    i
}

/// Which of a file's changes a link shows.
pub fn preferred_diff_kind(status: &Status, rel: &str) -> (r: Option<&'static str>)
    ensures
        opt_str(r) == diff_kind(status@, rel@),
{
    let i = find_entry(&status.unstaged, rel);
    if i < status.unstaged.len() {
        assert(entries(status.unstaged@)[i as int] == status.unstaged@[i as int]@);
        if status.unstaged[i].letter == 'U' {
            Some("untracked")
        } else {
            Some("worktree")
        }
    } else if find_entry(&status.staged, rel) < status.staged.len() {
        Some("staged")
    } else {
        None
    }
}

/// The change of `path` that a link shows, in the repository at `root`.
pub open spec fn diff_of(
    path: Seq<char>,
    root: Seq<char>,
    status: StatusView,
) -> Option<LinkDiffView> {
    match below(path, root) {
        None => None,
        Some(rel) => {
            let rel = replaced(rel, '\\', '/');
            match diff_kind(status, rel) {
                Some(kind) => Some(LinkDiffView { root, rel, kind }),
                None => None,
            }
        },
    }
}

/// The change of `path` that a link shows, in the repository at `root`.
pub fn link_diff(path: &str, root: &str, status: &Status) -> (r: Option<LinkDiff>)
    ensures
        diff_view(r) == diff_of(path@, root@, status@),
{
    let p = chars_of(path);
    let base = chars_of(root);
    match strip_root(&p, &base) {
        None => None,
        Some(rest) => {
            let rel = text_of(&replace(&rest, '\\', '/'));
            match preferred_diff_kind(status, rel.as_str()) {
                Some(kind) => Some(
                    LinkDiff { root: root.to_string(), rel, kind: kind.to_string() },
                ),
                None => None,
            }
        },
    }
}

/// What was found out so far about a clicked link.
pub struct LinkFacts {
    /// Whether the path that the link names is there.
    pub present: Option<bool>,
    /// The link's path with every symbolic link followed, or why it has none.
    pub canonical: Option<Result<String, String>>,
    /// The Explorer to show it in, where there is one.
    pub target: Option<Option<Target>>,
    /// The Explorer's folder with every symbolic link followed.
    pub root: Option<String>,
    pub is_dir: Option<bool>,
    /// The change to show in place of the file.
    pub diff: Option<Option<LinkDiff>>,
}

#[verifier::ext_equal]
pub struct FactsView {
    pub present: Option<bool>,
    pub canonical: Option<Outcome>,
    pub target: Option<Option<TargetView>>,
    pub root: Option<Seq<char>>,
    pub is_dir: Option<bool>,
    pub diff: Option<Option<LinkDiffView>>,
}

pub open spec fn opt_target(t: Option<Target>) -> Option<TargetView> {
    match t {
        Some(t) => Some(t@),
        None => None,
    }
}

impl View for LinkFacts {
    type V = FactsView;

    open spec fn view(&self) -> FactsView {
        FactsView {
            present: self.present,
            canonical: match self.canonical {
                Some(r) => Some(outcome(r)),
                None => None,
            },
            target: match self.target {
                Some(t) => Some(opt_target(t)),
                None => None,
            },
            root: opt_text(self.root),
            is_dir: self.is_dir,
            diff: match self.diff {
                Some(d) => Some(diff_view(d)),
                None => None,
            },
        }
    }
}

/// What to do next about a clicked link: find something out, or act.
pub enum LinkStep {
    /// Whether this path is there.
    Present(String),
    /// This path with every symbolic link followed.
    Canonical(String),
    /// The Explorer, shown first where none is.
    Locate,
    /// This folder with every symbolic link followed.
    Root(String),
    /// Whether this path is a directory.
    IsDir(String),
    /// The change of this file.
    Diff(String),
    /// Send the request to the pane.
    Send(String, OpenRequest),
    /// Open the path with the system's program for it.
    External(String),
    Fail(String),
}

#[verifier::ext_equal]
pub enum LinkStepView {
    Present(Seq<char>),
    Canonical(Seq<char>),
    Locate,
    Root(Seq<char>),
    IsDir(Seq<char>),
    Diff(Seq<char>),
    Send(Seq<char>, RequestView),
    External(Seq<char>),
    Fail(Seq<char>),
}

impl View for LinkStep {
    type V = LinkStepView;

    open spec fn view(&self) -> LinkStepView {
        match *self {
            LinkStep::Present(p) => LinkStepView::Present(p@),
            LinkStep::Canonical(p) => LinkStepView::Canonical(p@),
            LinkStep::Locate => LinkStepView::Locate,
            LinkStep::Root(p) => LinkStepView::Root(p@),
            LinkStep::IsDir(p) => LinkStepView::IsDir(p@),
            LinkStep::Diff(p) => LinkStepView::Diff(p@),
            LinkStep::Send(pane, r) => LinkStepView::Send(pane@, r@),
            LinkStep::External(p) => LinkStepView::External(p@),
            LinkStep::Fail(e) => LinkStepView::Fail(e@),
        }
    }
}

/// What to do about the existing `path` and the Explorer `target`: show it
/// there where it lies below the Explorer's folder, else open it elsewhere. A
/// directory is shown without a line or a change.
pub open spec fn shown_link(
    path: Seq<char>,
    line: Option<usize>,
    target: TargetView,
    facts: FactsView,
) -> LinkStepView {
    match facts.root {
        None => LinkStepView::Root(target.root),
        Some(root) => match below(path, root) {
            Some(rel) if rel.len() > 0 => match (facts.is_dir, facts.diff) {
                (None, _) => LinkStepView::IsDir(path),
                (Some(true), _) => LinkStepView::Send(
                    target.pane_id,
                    request_for(target, rel, true, None, None),
                ),
                (Some(false), None) => LinkStepView::Diff(path),
                (Some(false), Some(diff)) => LinkStepView::Send(
                    target.pane_id,
                    request_for(target, rel, false, line, diff),
                ),
            },
            _ => LinkStepView::External(path),
        },
    }
}

/// What to do next about a clicked link, from what was found out so far.
pub open spec fn clicked(raw: Option<Seq<char>>, facts: FactsView, platform: Platform) -> LinkStepView {
    match raw {
        None => LinkStepView::Fail("Link handler received no URL."@),
        Some(raw) => match (link_resource(raw, platform), facts.present) {
            (Err(e), _) => LinkStepView::Fail(e),
            (Ok(link), None) => LinkStepView::Present(link.path),
            (Ok(_), Some(present)) => match (link_target(raw, present, platform), facts.canonical) {
                (Err(e), _) => LinkStepView::Fail(e),
                (Ok(link), None) => LinkStepView::Canonical(link.path),
                (Ok(link), Some(Err(e))) => LinkStepView::Fail(
                    "Could not open "@ + link.path + ": "@ + e,
                ),
                (Ok(link), Some(Ok(path))) => match facts.target {
                    None => LinkStepView::Locate,
                    Some(None) => LinkStepView::External(path),
                    Some(Some(target)) => shown_link(path, link.line, target, facts),
                },
            },
        },
    }
}

fn copy_diff(d: &Option<LinkDiff>) -> (r: Option<LinkDiff>)
    ensures
        diff_view(r) == diff_view(*d),
{
    match d {
        Some(d) => Some(d.clone()),
        None => None,
    }
}

fn show_link(path: &str, line: Option<usize>, target: &Target, facts: &LinkFacts) -> (r: LinkStep)
    ensures
        r@ == shown_link(path@, line, target@, facts@),
{
    let root = match &facts.root {
        Some(root) => root,
        None => {
            return LinkStep::Root(target.root.clone());
        },
    };
    let p = chars_of(path);
    let base = chars_of(root.as_str());
    match strip_root(&p, &base) {
        Some(rest) => {
            if rest.len() == 0 {
                return LinkStep::External(path.to_string());
            }
            let rel = text_of(&rest);
            match facts.is_dir {
                None => LinkStep::IsDir(path.to_string()),
                Some(true) => LinkStep::Send(
                    target.pane_id.clone(),
                    make_request(target, rel.as_str(), true, None, None),
                ),
                Some(false) => match &facts.diff {
                    None => LinkStep::Diff(path.to_string()),
                    Some(diff) => {
                        let diff = copy_diff(diff);
                        LinkStep::Send(
                            target.pane_id.clone(),
                            make_request(target, rel.as_str(), false, line, diff),
                        )
                    },
                },
            }
        },
        None => LinkStep::External(path.to_string()),
    }
}

/// What to do next about a clicked link, from what was found out so far.
pub fn open_clicked_link(raw: Option<&str>, facts: &LinkFacts, platform: Platform) -> (r: LinkStep)
    ensures
        r@ == clicked(opt_str(raw), facts@, platform),
{
    let raw = match raw {
        Some(raw) => raw,
        None => {
            return LinkStep::Fail("Link handler received no URL.".to_string());
        },
    };
    let named = match parse_resource(raw, platform) {
        Ok(link) => link,
        Err(e) => {
            return LinkStep::Fail(e);
        },
    };
    let present = match facts.present {
        Some(present) => present,
        None => {
            return LinkStep::Present(named.path);
        },
    };
    let link = match parse_link(raw, present, platform) {
        Ok(link) => link,
        Err(e) => {
            return LinkStep::Fail(e);
        },
    };
    match &facts.canonical {
        None => LinkStep::Canonical(link.path),
        Some(Err(e)) => {
            let head = cat3("Could not open ", link.path.as_str(), ": ");
            LinkStep::Fail(cat(head.as_str(), e.as_str()))
        },
        Some(Ok(path)) => match &facts.target {
            None => LinkStep::Locate,
            Some(None) => LinkStep::External(path.clone()),
            Some(Some(target)) => show_link(path.as_str(), link.line, target, facts),
        },
    }
}

/// What a clicked link sends to the Explorer lies below its folder: the path
/// sent, put below the folder again, has the parts of the link's.
pub proof fn law_sent_links_lie_below_the_root(
    raw: Option<Seq<char>>,
    facts: FactsView,
    platform: Platform,
)
    requires
        clicked(raw, facts, platform) is Send,
    ensures
        facts.canonical matches Some(Ok(path)) && facts.root matches Some(root)
            && clicked(raw, facts, platform)->Send_1.path.len() > 0
            && same_parts(under_dir(root, clicked(raw, facts, platform)->Send_1.path), path),
{
    law_stripping_is_undone(facts.canonical->0->Ok_0, facts.root->0);
}

} // verus!
