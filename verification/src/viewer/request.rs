//! What the sidebar asks the viewer to show, and the text that carries it.

use vstd::prelude::*;

use crate::git::copy_opt;
use crate::json::{
    fields, fields_of, json_of, json_text, members, read_json, values, write_json, DocumentView, Json,
    JsonView,
};
use crate::paths::{below, join_path, same_parts, same_path, strip_root, under_dir};
use crate::scan::{
    decimal, digits, digits_of, is_digit, is_white, law_digits_read_back, number, parse_number,
    parse_u64, replace, replaced, skip, skip_back, trim, trim_end, trim_start, trimmed, Class,
};
use crate::text::{
    after, cat3, chars_of, eq_text, find, find_char, has_char, has_prefix, join, law_split_of_join,
    opt_text, pieces, push_text, same, slice_of, split, split_on, starts_with_str, text_of,
    text_slice,
};

verus! {

/// Begins a control file of the viewer that shares the sidebar's pane.
pub const INLINE_CONTROL_PREFIX: &'static str = "inline\t";

/// What the viewer is asked to show.
#[allow(inconsistent_fields)]
#[derive(Debug, PartialEq, Eq)]
pub enum Request {
    File(String),
    FileLine { path: String, line: usize },
    SearchFile {
        path: String,
        line: usize,
        query: String,
        regex: bool,
        case_sensitive: bool,
        whole_word: bool,
    },
    Diff {
        root: String,
        rel: String,
        /// Which diff: staged, worktree or untracked.
        kind: String,
        /// The line of the file as it is now, where one was asked for.
        line: Option<usize>,
    },
    RefDiff {
        root: String,
        old_spec: String,
        new_spec: String,
        rel: String,
        old_rel: Option<String>,
    },
    /// A commit, stash, tag or branch tip, or one file of it.
    Show { root: String, spec: String, path: Option<String> },
}

#[allow(inconsistent_fields)]
#[verifier::ext_equal]
pub enum RequestView {
    File(Seq<char>),
    FileLine { path: Seq<char>, line: usize },
    SearchFile {
        path: Seq<char>,
        line: usize,
        query: Seq<char>,
        regex: bool,
        case_sensitive: bool,
        whole_word: bool,
    },
    Diff { root: Seq<char>, rel: Seq<char>, kind: Seq<char>, line: Option<usize> },
    RefDiff {
        root: Seq<char>,
        old_spec: Seq<char>,
        new_spec: Seq<char>,
        rel: Seq<char>,
        old_rel: Option<Seq<char>>,
    },
    Show { root: Seq<char>, spec: Seq<char>, path: Option<Seq<char>> },
}

impl View for Request {
    type V = RequestView;

    open spec fn view(&self) -> RequestView {
        match *self {
            Request::File(path) => RequestView::File(path@),
            Request::FileLine { path, line } => RequestView::FileLine { path: path@, line },
            Request::SearchFile { path, line, query, regex, case_sensitive, whole_word } =>
                RequestView::SearchFile {
                path: path@,
                line,
                query: query@,
                regex,
                case_sensitive,
                whole_word,
            },
            Request::Diff { root, rel, kind, line } => RequestView::Diff {
                root: root@,
                rel: rel@,
                kind: kind@,
                line,
            },
            Request::RefDiff { root, old_spec, new_spec, rel, old_rel } => RequestView::RefDiff {
                root: root@,
                old_spec: old_spec@,
                new_spec: new_spec@,
                rel: rel@,
                old_rel: opt_text(old_rel),
            },
            Request::Show { root, spec, path } => RequestView::Show {
                root: root@,
                spec: spec@,
                path: opt_text(path),
            },
        }
    }
}

impl Clone for Request {
    fn clone(&self) -> (r: Request)
        ensures
            r@ == self@,
    {
        match self {
            Request::File(path) => Request::File(path.clone()),
            Request::FileLine { path, line } => Request::FileLine {
                path: path.clone(),
                line: *line,
            },
            Request::SearchFile { path, line, query, regex, case_sensitive, whole_word } =>
                Request::SearchFile {
                path: path.clone(),
                line: *line,
                query: query.clone(),
                regex: *regex,
                case_sensitive: *case_sensitive,
                whole_word: *whole_word,
            },
            Request::Diff { root, rel, kind, line } => Request::Diff {
                root: root.clone(),
                rel: rel.clone(),
                kind: kind.clone(),
                line: *line,
            },
            Request::RefDiff { root, old_spec, new_spec, rel, old_rel } => Request::RefDiff {
                root: root.clone(),
                old_spec: old_spec.clone(),
                new_spec: new_spec.clone(),
                rel: rel.clone(),
                old_rel: copy_opt(old_rel),
            },
            Request::Show { root, spec, path } => Request::Show {
                root: root.clone(),
                spec: spec.clone(),
                path: copy_opt(path),
            },
        }
    }
}

// ---- Payloads that carry JSON ----

/// The members of the object that asks for a file at one line.
pub open spec fn line_names() -> Seq<Seq<char>> {
    seq!["path"@, "line"@]
}

/// The members of the object that asks for a file at a search hit.
pub open spec fn search_names() -> Seq<Seq<char>> {
    seq!["path"@, "line"@, "query"@, "regex"@, "case_sensitive"@, "whole_word"@]
}

/// What asks for a file at one line.
pub open spec fn line_members(path: Seq<char>, line: usize) -> Map<Seq<char>, JsonView> {
    Map::empty().insert("path"@, JsonView::Text(path)).insert(
        "line"@,
        JsonView::Number(Some(line as u64)),
    )
}

/// What asks for a file at a search hit.
pub open spec fn search_members(
    path: Seq<char>,
    line: usize,
    query: Seq<char>,
    regex: bool,
    case_sensitive: bool,
    whole_word: bool,
) -> Map<Seq<char>, JsonView> {
    line_members(path, line).insert("query"@, JsonView::Text(query)).insert(
        "regex"@,
        JsonView::Bool(regex),
    ).insert("case_sensitive"@, JsonView::Bool(case_sensitive)).insert(
        "whole_word"@,
        JsonView::Bool(whole_word),
    )
}

/// The file and the line that a JSON text asks for.
pub open spec fn line_asked(d: Option<DocumentView>) -> Option<RequestView> {
    match d {
        None => None,
        Some(d) => match fields_of(d, line_names()) {
            None => None,
            Some(v) => match (v[0], v[1]) {
                (JsonView::Text(path), JsonView::Number(Some(line))) => if line <= usize::MAX {
                    Some(RequestView::FileLine { path, line: line as usize })
                } else {
                    None
                },
                _ => None,
            },
        },
    }
}

/// The file and the search hit that a JSON text asks for.
pub open spec fn hit_asked(d: Option<DocumentView>) -> Option<RequestView> {
    match d {
        None => None,
        Some(d) => match fields_of(d, search_names()) {
            None => None,
            Some(v) => match (v[0], v[1], v[2], v[3], v[4], v[5]) {
                (
                    JsonView::Text(path),
                    JsonView::Number(Some(line)),
                    JsonView::Text(query),
                    JsonView::Bool(regex),
                    JsonView::Bool(case_sensitive),
                    JsonView::Bool(whole_word),
                ) => if line <= usize::MAX {
                    Some(
                        RequestView::SearchFile {
                            path,
                            line: line as usize,
                            query,
                            regex,
                            case_sensitive,
                            whole_word,
                        },
                    )
                } else {
                    None
                },
                _ => None,
            },
        },
    }
}

fn ask_line(text: &str) -> (r: Option<Request>)
    ensures
        request_view(r) == line_asked(json_of(text@)),
{
    let d = match read_json(text) {
        Some(d) => d,
        None => {
            return None;
        },
    };
    assert(crate::git::strs(["path", "line"]@) =~= line_names());
    let v = match fields(d, &["path", "line"]) {
        Some(v) => v,
        None => {
            return None;
        },
    };
    assert(values(v@).len() == v@.len());
    assert(values(v@)[0] == v@[0]@ && values(v@)[1] == v@[1]@);
    match (&v[0], &v[1]) {
        (Json::Text(path), Json::Number(Some(line))) => if *line <= usize::MAX as u64 {
            Some(Request::FileLine { path: path.clone(), line: *line as usize })
        } else {
            None
        },
        _ => None,
    }
}

fn ask_hit(text: &str) -> (r: Option<Request>)
    ensures
        request_view(r) == hit_asked(json_of(text@)),
{
    let d = match read_json(text) {
        Some(d) => d,
        None => {
            return None;
        },
    };
    assert(crate::git::strs(
        ["path", "line", "query", "regex", "case_sensitive", "whole_word"]@,
    ) =~= search_names());
    let v = match fields(
        d,
        &["path", "line", "query", "regex", "case_sensitive", "whole_word"],
    ) {
        Some(v) => v,
        None => {
            return None;
        },
    };
    assert(values(v@).len() == v@.len());
    assert(forall|k: int| 0 <= k < 6 ==> #[trigger] values(v@)[k] == v@[k]@);
    match (&v[0], &v[1], &v[2], &v[3], &v[4], &v[5]) {
        (
            Json::Text(path),
            Json::Number(Some(line)),
            Json::Text(query),
            Json::Bool(regex),
            Json::Bool(case_sensitive),
            Json::Bool(whole_word),
        ) => if *line <= usize::MAX as u64 {
            Some(
                Request::SearchFile {
                    path: path.clone(),
                    line: *line as usize,
                    query: query.clone(),
                    regex: *regex,
                    case_sensitive: *case_sensitive,
                    whole_word: *whole_word,
                },
            )
        } else {
            None
        },
        _ => None,
    }
}

proof fn lemma_names_differ()
    ensures
        "path"@ != "line"@ && "path"@ != "query"@ && "path"@ != "regex"@ && "path"@
            != "case_sensitive"@ && "path"@ != "whole_word"@,
        "line"@ != "query"@ && "line"@ != "regex"@ && "line"@ != "case_sensitive"@ && "line"@
            != "whole_word"@,
        "query"@ != "regex"@ && "query"@ != "case_sensitive"@ && "query"@ != "whole_word"@,
        "regex"@ != "case_sensitive"@ && "regex"@ != "whole_word"@,
        "case_sensitive"@ != "whole_word"@,
{
    reveal_strlit("path");
    reveal_strlit("line");
    reveal_strlit("query");
    reveal_strlit("regex");
    reveal_strlit("case_sensitive");
    reveal_strlit("whole_word");
    assert("path"@[0] == 'p' && "line"@[0] == 'l' && "query"@[0] == 'q' && "regex"@[0] == 'r');
    assert("case_sensitive"@[0] == 'c' && "whole_word"@[0] == 'w');
}

// ---- Reading a request ----

pub open spec fn part(parts: Seq<Seq<char>>, i: int) -> Seq<char> {
    if i < parts.len() {
        parts[i]
    } else {
        Seq::empty()
    }
}

/// A part that is there and not empty.
pub open spec fn filled(parts: Seq<Seq<char>>, i: int) -> Option<Seq<char>> {
    if i < parts.len() && parts[i].len() > 0 {
        Some(parts[i])
    } else {
        None
    }
}

/// What the tab-separated parts of a request ask for; `whole` is the request
/// itself, a bare path where the first part is no known word.
pub open spec fn parsed_parts(parts: Seq<Seq<char>>, whole: Seq<char>) -> Option<RequestView> {
    if parts[0] == "diff"@ {
        if parts.len() < 3 {
            None
        } else {
            Some(
                RequestView::Diff {
                    root: parts[1],
                    rel: parts[2],
                    kind: if parts.len() > 3 {
                        parts[3]
                    } else {
                        "worktree"@
                    },
                    line: if parts.len() > 4 {
                        number(parts[4])
                    } else {
                        None
                    },
                },
            )
        }
    } else if parts[0] == "show"@ {
        if parts.len() < 3 {
            None
        } else {
            Some(RequestView::Show { root: parts[1], spec: parts[2], path: filled(parts, 3) })
        }
    } else if parts[0] == "refdiff"@ {
        if parts.len() < 5 {
            None
        } else {
            Some(
                RequestView::RefDiff {
                    root: parts[1],
                    old_spec: parts[2],
                    new_spec: parts[3],
                    rel: parts[4],
                    old_rel: filled(parts, 5),
                },
            )
        }
    } else if parts[0] == "searchfile"@ {
        if parts.len() < 2 {
            None
        } else {
            hit_asked(json_of(parts[1]))
        }
    } else if parts[0] == "fileline"@ {
        if parts.len() < 2 {
            None
        } else {
            line_asked(json_of(parts[1]))
        }
    } else if parts[0] == "file"@ {
        if parts.len() < 2 {
            None
        } else {
            Some(RequestView::File(parts[1]))
        }
    } else {
        Some(RequestView::File(whole))
    }
}

/// What a request's text asks for.
pub open spec fn parsed(raw: Seq<char>) -> Option<RequestView> {
    let raw = trim(raw, Class::White);
    if raw.len() == 0 {
        None
    } else {
        parsed_parts(split(raw, '\t'), raw)
    }
}

pub open spec fn request_view(r: Option<Request>) -> Option<RequestView> {
    match r {
        Some(r) => Some(r@),
        None => None,
    }
}

fn filled_text(parts: &Vec<Vec<char>>, i: usize) -> (r: Option<String>)
    ensures
        opt_text(r) == filled(pieces(parts@), i as int),
{
    if i < parts.len() {
        assert(pieces(parts@)[i as int] == parts@[i as int]@);
        if parts[i].len() > 0 {
            return Some(text_of(&parts[i]));
        }
    }
    None
}

fn is_word(part: &Vec<char>, word: &str) -> (r: bool)
    ensures
        r == (part@ == word@),
{
    let w = chars_of(word);
    same(part, &w)
}

fn parse_diff(parts: &Vec<Vec<char>>) -> (r: Option<Request>)
    requires
        parts@.len() >= 1,
        parts@[0]@ == "diff"@,
    ensures
        forall|whole: Seq<char>| request_view(r) == #[trigger] parsed_parts(pieces(parts@), whole),
{
    let ghost all = pieces(parts@);
    assert(all[0] == parts@[0]@);
    if parts.len() < 3 {
        return None;
    }
    assert(all[1] == parts@[1]@ && all[2] == parts@[2]@);
    let kind = if parts.len() > 3 {
        assert(all[3] == parts@[3]@);
        text_of(&parts[3])
    } else {
        "worktree".to_string()
    };
    let line = if parts.len() > 4 {
        assert(all[4] == parts@[4]@);
        parse_number(&parts[4])
    } else {
        None
    };
    Some(Request::Diff { root: text_of(&parts[1]), rel: text_of(&parts[2]), kind, line })
}

fn parse_refs(parts: &Vec<Vec<char>>) -> (r: Option<Request>)
    requires
        parts@.len() >= 1,
        parts@[0]@ == "show"@ || parts@[0]@ == "refdiff"@,
    ensures
        forall|whole: Seq<char>| request_view(r) == #[trigger] parsed_parts(pieces(parts@), whole),
{
    let ghost all = pieces(parts@);
    proof {
        reveal_strlit("show");
        reveal_strlit("refdiff");
        reveal_strlit("diff");
        assert("show"@[0] == 's' && "refdiff"@[0] == 'r' && "diff"@[0] == 'd');
    }
    assert(all[0] == parts@[0]@);
    if is_word(&parts[0], "show") {
        if parts.len() < 3 {
            return None;
        }
        assert(all[1] == parts@[1]@ && all[2] == parts@[2]@);
        return Some(
            Request::Show {
                root: text_of(&parts[1]),
                spec: text_of(&parts[2]),
                path: filled_text(parts, 3),
            },
        );
    }
    if parts.len() < 5 {
        return None;
    }
    assert(all[1] == parts@[1]@ && all[2] == parts@[2]@);
    assert(all[3] == parts@[3]@ && all[4] == parts@[4]@);
    Some(
        Request::RefDiff {
            root: text_of(&parts[1]),
            old_spec: text_of(&parts[2]),
            new_spec: text_of(&parts[3]),
            rel: text_of(&parts[4]),
            old_rel: filled_text(parts, 5),
        },
    )
}

/// The words that begin a request are different words.
proof fn lemma_words_differ()
    ensures
        "diff"@ != "show"@ && "diff"@ != "refdiff"@ && "diff"@ != "searchfile"@ && "diff"@
            != "fileline"@ && "diff"@ != "file"@,
        "show"@ != "refdiff"@ && "show"@ != "searchfile"@ && "show"@ != "fileline"@ && "show"@
            != "file"@,
        "refdiff"@ != "searchfile"@ && "refdiff"@ != "fileline"@ && "refdiff"@ != "file"@,
        "searchfile"@ != "fileline"@ && "searchfile"@ != "file"@ && "fileline"@ != "file"@,
{
    reveal_strlit("diff");
    reveal_strlit("show");
    reveal_strlit("refdiff");
    reveal_strlit("searchfile");
    reveal_strlit("fileline");
    reveal_strlit("file");
    assert("diff"@[0] == 'd' && "show"@[0] == 's' && "show"@[1] == 'h' && "refdiff"@[0] == 'r');
    assert("searchfile"@[0] == 's' && "searchfile"@[1] == 'e');
    assert("fileline"@[0] == 'f' && "file"@[0] == 'f');
    assert("fileline"@.len() == 8 && "file"@.len() == 4);
}

/// What a request's text asks for.
pub fn parse_request(raw: &str) -> (r: Option<Request>)
    ensures
        request_view(r) == parsed(raw@),
{
    let v = chars_of(raw);
    let whole = trimmed(&v, Class::White);
    if whole.len() == 0 {
        return None;
    }
    let parts = split_on(&whole, '\t');
    let ghost all = pieces(parts@);
    assert(all[0] == parts@[0]@);
    proof {
        lemma_words_differ();
    }
    let word = &parts[0];
    if is_word(word, "diff") {
        return parse_diff(&parts);
    }
    if is_word(word, "show") || is_word(word, "refdiff") {
        return parse_refs(&parts);
    }
    let known = is_word(word, "searchfile") || is_word(word, "fileline") || is_word(word, "file");
    if !known {
        return Some(Request::File(text_of(&whole)));
    }
    if parts.len() < 2 {
        return None;
    }
    assert(all[1] == parts@[1]@);
    let payload = text_of(&parts[1]);
    if is_word(word, "searchfile") {
        ask_hit(payload.as_str())
    } else if is_word(word, "fileline") {
        ask_line(payload.as_str())
    } else {
        Some(Request::File(payload))
    }
}

// ---- Writing a request ----

/// The parts with a tab between each two.
pub open spec fn tabbed_parts(parts: Seq<Seq<char>>) -> Seq<char> {
    join(parts, seq!['\t'])
}

fn tab_joined(parts: &[&str]) -> (r: String)
    ensures
        r@ == tabbed_parts(crate::git::strs(parts@)),
{
    let ghost all = crate::git::strs(parts@);
    let n = parts.len();
    let mut out: Vec<char> = Vec::new();
    let mut i: usize = n;
    assert(all.subrange(n as int, n as int) =~= Seq::empty());
    while i > 0
        invariant
            i <= n,
            n == parts@.len(),
            all == crate::git::strs(parts@),
            out@ == tabbed_parts(all.subrange(i as int, n as int)),
        decreases i,
    {
        let ghost rest = all.subrange(i as int, n as int);
        let ghost more = all.subrange(i - 1, n as int);
        let mut next = chars_of(parts[i - 1]);
        assert(more.subrange(1, more.len() as int) =~= rest);
        assert(more[0] == parts@[i - 1]@);
        if i < n {
            next.push('\t');
            crate::text::push_all(&mut next, &out);
            assert(next@ =~= more[0] + seq!['\t'] + tabbed_parts(rest));
        }
        out = next;
        i -= 1;
    }
    assert(all.subrange(0, n as int) =~= all);
    text_of(&out)
}

/// The text of a request.
pub open spec fn payload(request: RequestView) -> Seq<char> {
    match request {
        RequestView::File(path) => tabbed_parts(seq!["file"@, path]),
        RequestView::FileLine { path, line } => tabbed_parts(
            seq!["fileline"@, json_text(line_members(path, line))],
        ),
        RequestView::SearchFile { path, line, query, regex, case_sensitive, whole_word } =>
            tabbed_parts(
            seq![
                "searchfile"@,
                json_text(
                    search_members(path, line, query, regex, case_sensitive, whole_word),
                ),
            ],
        ),
        RequestView::Diff { root, rel, kind, line } => match line {
            None => tabbed_parts(seq!["diff"@, root, rel, kind]),
            Some(n) => tabbed_parts(seq!["diff"@, root, rel, kind, digits(n as nat)]),
        },
        RequestView::RefDiff { root, old_spec, new_spec, rel, old_rel } => tabbed_parts(
            seq!["refdiff"@, root, old_spec, new_spec, rel, or_empty(old_rel)],
        ),
        RequestView::Show { root, spec, path } => tabbed_parts(
            seq!["show"@, root, spec, or_empty(path)],
        ),
    }
}

pub open spec fn or_empty(v: Option<Seq<char>>) -> Seq<char> {
    match v {
        Some(s) => s,
        None => Seq::empty(),
    }
}

pub open spec fn opt_str(v: Option<&str>) -> Option<Seq<char>> {
    match v {
        Some(s) => Some(s@),
        None => None,
    }
}

/// Asks for a file.
pub fn file_request(path: &str) -> (r: String)
    ensures
        r@ == payload(RequestView::File(path@)),
{
    let r = tab_joined(&["file", path]);
    assert(crate::git::strs(["file", path]@) =~= seq!["file"@, path@]);
    r
}

/// Asks for a diff of the working tree.
pub fn diff_request(root: &str, rel: &str, kind: &str) -> (r: String)
    ensures
        r@ == payload(RequestView::Diff { root: root@, rel: rel@, kind: kind@, line: None }),
{
    let r = tab_joined(&["diff", root, rel, kind]);
    assert(crate::git::strs(["diff", root, rel, kind]@) =~= seq!["diff"@, root@, rel@, kind@]);
    r
}

/// Asks for a diff of the working tree, at one line of the file as it is now.
pub fn diff_line_request(root: &str, rel: &str, kind: &str, line: usize) -> (r: String)
    ensures
        r@ == payload(
            RequestView::Diff { root: root@, rel: rel@, kind: kind@, line: Some(line) },
        ),
{
    let n = text_of(&digits_of(line));
    let n = n.as_str();
    let r = tab_joined(&["diff", root, rel, kind, n]);
    assert(crate::git::strs(["diff", root, rel, kind, n]@) =~= seq![
        "diff"@,
        root@,
        rel@,
        kind@,
        n@,
    ]);
    r
}

/// Asks for the diff of one file between two revisions.
pub fn ref_diff_request(
    root: &str,
    old_spec: &str,
    new_spec: &str,
    rel: &str,
    old_rel: Option<&str>,
) -> (r: String)
    ensures
        r@ == payload(
            RequestView::RefDiff {
                root: root@,
                old_spec: old_spec@,
                new_spec: new_spec@,
                rel: rel@,
                old_rel: opt_str(old_rel),
            },
        ),
{
    let from = match old_rel {
        Some(s) => s,
        None => "",
    };
    proof {
        reveal_strlit("");
        assert(""@ =~= Seq::<char>::empty());
    }
    let r = tab_joined(&["refdiff", root, old_spec, new_spec, rel, from]);
    assert(crate::git::strs(["refdiff", root, old_spec, new_spec, rel, from]@) =~= seq![
        "refdiff"@,
        root@,
        old_spec@,
        new_spec@,
        rel@,
        from@,
    ]);
    r
}

/// Asks for a commit, stash, tag or branch tip, or one file of it.
pub fn show_request(root: &str, spec: &str, path: Option<&str>) -> (r: String)
    ensures
        r@ == payload(
            RequestView::Show { root: root@, spec: spec@, path: opt_str(path) },
        ),
{
    let file = match path {
        Some(s) => s,
        None => "",
    };
    proof {
        reveal_strlit("");
        assert(""@ =~= Seq::<char>::empty());
    }
    let r = tab_joined(&["show", root, spec, file]);
    assert(crate::git::strs(["show", root, spec, file]@) =~= seq!["show"@, root@, spec@, file@]);
    r
}

/// Asks for a file at one line. The text reads back as the same request.
pub fn file_line_request(path: &str, line: usize) -> (r: String)
    ensures
        r@ == payload(RequestView::FileLine { path: path@, line }),
        parsed(r@) == Some(RequestView::FileLine { path: path@, line }),
{
    let list = vec![
        ("path".to_string(), Json::Text(path.to_string())),
        ("line".to_string(), Json::Number(Some(line as u64))),
    ];
    proof {
        lemma_names_differ();
        let v = list@;
        assert(v.drop_last().drop_last() =~= Seq::empty());
        assert(v.drop_last().last() == v[0]);
        assert(members(v.drop_last()) == members(v.drop_last().drop_last()).insert(
            v[0].0@,
            v[0].1@,
        ));
        assert(members(v) == line_members(path@, line));
    }
    let json = write_json(list);
    let json = json.as_str();
    let r = tab_joined(&["fileline", json]);
    proof {
        assert(crate::git::strs(["fileline", json]@) =~= seq!["fileline"@, json@]);
        lemma_words_differ();
        lemma_word_reads("fileline"@, json@);
    }
    r
}

/// Asks for a file at a search hit. The text reads back as the same request.
pub fn search_file_request(
    path: &str,
    line: usize,
    query: &str,
    regex: bool,
    case_sensitive: bool,
    whole_word: bool,
) -> (r: String)
    ensures
        ({
            let request = RequestView::SearchFile {
                path: path@,
                line,
                query: query@,
                regex,
                case_sensitive,
                whole_word,
            };
            r@ == payload(request) && parsed(r@) == Some(request)
        }),
{
    let list = vec![
        ("path".to_string(), Json::Text(path.to_string())),
        ("line".to_string(), Json::Number(Some(line as u64))),
        ("query".to_string(), Json::Text(query.to_string())),
        ("regex".to_string(), Json::Bool(regex)),
        ("case_sensitive".to_string(), Json::Bool(case_sensitive)),
        ("whole_word".to_string(), Json::Bool(whole_word)),
    ];
    proof {
        lemma_names_differ();
        let v = list@;
        assert(v.take(0) =~= Seq::empty());
        assert forall|n: int| 0 < n <= 6 implies #[trigger] members(v.take(n)) == members(
            v.take(n - 1),
        ).insert(v[n - 1].0@, v[n - 1].1@) by {
            assert(v.take(n).drop_last() =~= v.take(n - 1));
        }
        assert(v.take(6) =~= v);
        assert(members(v.take(2)) == line_members(path@, line)) by {
            assert(members(v.take(1)) == members(v.take(0)).insert(v[0].0@, v[0].1@));
        }
        assert(members(v.take(3)) == members(v.take(2)).insert(v[2].0@, v[2].1@));
        assert(members(v.take(4)) == members(v.take(3)).insert(v[3].0@, v[3].1@));
        assert(members(v.take(5)) == members(v.take(4)).insert(v[4].0@, v[4].1@));
        assert(members(v) == search_members(
            path@,
            line,
            query@,
            regex,
            case_sensitive,
            whole_word,
        ));
    }
    let json = write_json(list);
    let json = json.as_str();
    let r = tab_joined(&["searchfile", json]);
    proof {
        assert(crate::git::strs(["searchfile", json]@) =~= seq!["searchfile"@, json@]);
        lemma_words_differ();
        lemma_word_reads("searchfile"@, json@);
    }
    r
}

// ---- Requests read back ----

/// Neither end of `s` is white space, and there is something between.
pub open spec fn settled(s: Seq<char>) -> bool {
    s.len() > 0 && !is_white(s[0]) && !is_white(s.last())
}

proof fn lemma_trim_settled(s: Seq<char>)
    requires
        settled(s),
    ensures
        trim(s, Class::White) == s,
{
    assert(skip(s, Class::White, 0) == 0);
    assert(trim_start(s, Class::White) =~= s);
    assert(skip_back(s, Class::White, s.len() as int) == s.len());
    assert(trim_end(s, Class::White) =~= s);
}

/// One white character behind settled text is trimmed.
proof fn lemma_trim_one(s: Seq<char>, w: char)
    requires
        settled(s),
        is_white(w),
    ensures
        trim(s.push(w), Class::White) == s,
{
    let t = s.push(w);
    assert(skip(t, Class::White, 0) == 0);
    assert(trim_start(t, Class::White) =~= t);
    assert(skip_back(t, Class::White, t.len() - 1) == t.len() - 1);
    assert(skip_back(t, Class::White, t.len() as int) == t.len() - 1);
    assert(trim_end(t, Class::White) =~= s);
}

/// What a join ends in.
proof fn lemma_join_last(parts: Seq<Seq<char>>)
    requires
        parts.len() > 0,
    ensures
        parts.last().len() > 0 ==> tabbed_parts(parts).len() > 0 && tabbed_parts(parts).last()
            == parts.last().last(),
    decreases parts.len(),
{
    if parts.len() > 1 {
        let rest = parts.subrange(1, parts.len() as int);
        lemma_join_last(rest);
        if parts.last().len() > 0 {
            let all = tabbed_parts(parts);
            assert(all == parts[0] + seq!['\t'] + tabbed_parts(rest));
            assert(all.last() == tabbed_parts(rest).last());
        }
    }
}

proof fn lemma_join_first(parts: Seq<Seq<char>>)
    requires
        parts.len() > 0,
        parts[0].len() > 0,
    ensures
        tabbed_parts(parts).len() > 0,
        tabbed_parts(parts)[0] == parts[0][0],
{
    if parts.len() > 1 {
        let rest = parts.subrange(1, parts.len() as int);
        assert(tabbed_parts(parts) == parts[0] + seq!['\t'] + tabbed_parts(rest));
    }
}

/// Adding an empty part adds a tab.
proof fn lemma_join_empty(parts: Seq<Seq<char>>)
    requires
        parts.len() > 0,
    ensures
        tabbed_parts(parts.push(Seq::empty())) == tabbed_parts(parts).push('\t'),
    decreases parts.len(),
{
    let more = parts.push(Seq::empty());
    let rest = parts.subrange(1, parts.len() as int);
    assert(more.subrange(1, more.len() as int) =~= rest.push(Seq::empty()));
    if parts.len() > 1 {
        lemma_join_empty(rest);
        assert(parts[0] + seq!['\t'] + tabbed_parts(rest).push('\t') =~= (parts[0] + seq!['\t']
            + tabbed_parts(rest)).push('\t'));
    } else {
        assert(more.subrange(1, more.len() as int) =~= seq![Seq::<char>::empty()]);
        assert(tabbed_parts(seq![Seq::<char>::empty()]) =~= Seq::empty());
        assert(parts[0] + seq!['\t'] + Seq::<char>::empty() =~= parts[0].push('\t'));
    }
}

/// Parts without tabs, the first of them a word and the last settled at its
/// end, are found again in their join.
proof fn lemma_parts_read(parts: Seq<Seq<char>>)
    requires
        parts.len() > 1,
        parts[0].len() > 0 && !is_white(parts[0][0]),
        parts.last().len() > 0 && !is_white(parts.last().last()),
        forall|k: int| 0 <= k < parts.len() ==> !has_char(#[trigger] parts[k], '\t'),
    ensures
        parsed(tabbed_parts(parts)) == parsed_parts(parts, tabbed_parts(parts)),
        parsed(tabbed_parts(parts).push('\t')) == parsed_parts(parts, tabbed_parts(parts)),
{
    let s = tabbed_parts(parts);
    lemma_join_first(parts);
    lemma_join_last(parts);
    lemma_trim_settled(s);
    lemma_trim_one(s, '\t');
    law_split_of_join(parts, '\t');
}

proof fn lemma_word_reads(word: Seq<char>, json: Seq<char>)
    requires
        word == "fileline"@ || word == "searchfile"@,
        !has_char(json, '\t'),
        json.len() > 0 && json.last() == '}',
    ensures
        parsed(tabbed_parts(seq![word, json])) == parsed_parts(
            seq![word, json],
            tabbed_parts(seq![word, json]),
        ),
{
    reveal_strlit("fileline");
    reveal_strlit("searchfile");
    let parts = seq![word, json];
    assert(!has_char(word, '\t')) by {
        assert(forall|i: int| 0 <= i < "fileline"@.len() ==> "fileline"@[i] != '\t');
        assert(forall|i: int| 0 <= i < "searchfile"@.len() ==> "searchfile"@[i] != '\t');
    }
    assert(word[0] == 'f' || word[0] == 's');
    assert(forall|k: int| 0 <= k < parts.len() ==> !has_char(#[trigger] parts[k], '\t'));
    lemma_parts_read(parts);
}

/// The part of a request's text that must not end in white space: the last
/// that is not empty.
pub open spec fn last_part(request: RequestView) -> Seq<char> {
    match request {
        RequestView::File(path) => path,
        RequestView::Diff { kind, line, .. } => match line {
            Some(n) => digits(n as nat),
            None => kind,
        },
        RequestView::RefDiff { rel, old_rel, .. } => match old_rel {
            Some(from) => from,
            None => rel,
        },
        RequestView::Show { spec, path, .. } => match path {
            Some(file) => file,
            None => spec,
        },
        _ => Seq::empty(),
    }
}

/// No part of the request's text holds a tab.
pub open spec fn tab_free(request: RequestView) -> bool {
    match request {
        RequestView::File(path) => !has_char(path, '\t'),
        RequestView::Diff { root, rel, kind, .. } => !has_char(root, '\t') && !has_char(rel, '\t')
            && !has_char(kind, '\t'),
        RequestView::RefDiff { root, old_spec, new_spec, rel, old_rel } => !has_char(root, '\t')
            && !has_char(old_spec, '\t') && !has_char(new_spec, '\t') && !has_char(rel, '\t')
            && !has_char(or_empty(old_rel), '\t'),
        RequestView::Show { root, spec, path } => !has_char(root, '\t') && !has_char(spec, '\t')
            && !has_char(or_empty(path), '\t'),
        _ => false,
    }
}

/// A request whose parts hold no tab, and whose last does not end in white
/// space, reads back as it was written. (Requests that carry JSON read back
/// whatever they hold: see [`file_line_request`] and [`search_file_request`].)
pub proof fn law_requests_read_back(request: RequestView)
    requires
        tab_free(request),
        last_part(request).len() > 0,
        !is_white(last_part(request).last()),
    ensures
        parsed(payload(request)) == Some(request),
{
    lemma_words_differ();
    match request {
        RequestView::File(path) => {
            reveal_strlit("file");
            let parts = seq!["file"@, path];
            assert(forall|i: int| 0 <= i < "file"@.len() ==> "file"@[i] != '\t');
            assert(forall|k: int| 0 <= k < parts.len() ==> !has_char(#[trigger] parts[k], '\t'));
            lemma_parts_read(parts);
        },
        RequestView::Diff { root, rel, kind, line } => {
            reveal_strlit("diff");
            assert(forall|i: int| 0 <= i < "diff"@.len() ==> "diff"@[i] != '\t');
            match line {
                None => {
                    let parts = seq!["diff"@, root, rel, kind];
                    assert(forall|k: int|
                        0 <= k < parts.len() ==> !has_char(#[trigger] parts[k], '\t'));
                    lemma_parts_read(parts);
                },
                Some(n) => {
                    let d = digits(n as nat);
                    law_digits_read_back(n as nat);
                    assert(is_digit(d[0]));
                    assert(number(d) == Some(n));
                    assert forall|i: int| 0 <= i < d.len() implies d[i] != '\t' by {
                        assert(is_digit(d[i]));
                    }
                    let parts = seq!["diff"@, root, rel, kind, d];
                    assert(forall|k: int|
                        0 <= k < parts.len() ==> !has_char(#[trigger] parts[k], '\t'));
                    lemma_parts_read(parts);
                },
            }
        },
        RequestView::RefDiff { root, old_spec, new_spec, rel, old_rel } => {
            reveal_strlit("refdiff");
            assert(forall|i: int| 0 <= i < "refdiff"@.len() ==> "refdiff"@[i] != '\t');
            let head = seq!["refdiff"@, root, old_spec, new_spec, rel];
            match old_rel {
                Some(from) => {
                    let parts = seq!["refdiff"@, root, old_spec, new_spec, rel, from];
                    assert(forall|k: int|
                        0 <= k < parts.len() ==> !has_char(#[trigger] parts[k], '\t'));
                    lemma_parts_read(parts);
                },
                None => {
                    assert(forall|k: int|
                        0 <= k < head.len() ==> !has_char(#[trigger] head[k], '\t'));
                    lemma_parts_read(head);
                    lemma_join_empty(head);
                    assert(head.push(Seq::empty()) =~= seq![
                        "refdiff"@,
                        root,
                        old_spec,
                        new_spec,
                        rel,
                        Seq::<char>::empty(),
                    ]);
                },
            }
        },
        RequestView::Show { root, spec, path } => {
            reveal_strlit("show");
            assert(forall|i: int| 0 <= i < "show"@.len() ==> "show"@[i] != '\t');
            let head = seq!["show"@, root, spec];
            match path {
                Some(file) => {
                    let parts = seq!["show"@, root, spec, file];
                    assert(forall|k: int|
                        0 <= k < parts.len() ==> !has_char(#[trigger] parts[k], '\t'));
                    lemma_parts_read(parts);
                },
                None => {
                    assert(forall|k: int|
                        0 <= k < head.len() ==> !has_char(#[trigger] head[k], '\t'));
                    lemma_parts_read(head);
                    lemma_join_empty(head);
                    assert(head.push(Seq::empty()) =~= seq![
                        "show"@,
                        root,
                        spec,
                        Seq::<char>::empty(),
                    ]);
                },
            }
        },
        _ => {},
    }
}

// ---- Control files ----

/// The text of a control file, taken apart: the sidebar's width where the file
/// gives one, and the request.
pub open spec fn controlled(raw: Seq<char>) -> (Option<u16>, Seq<char>) {
    let rest = after(raw, 7);
    let i = find_char(rest, '\n', 0);
    if has_prefix(raw, INLINE_CONTROL_PREFIX@) && i < rest.len() {
        (
            match decimal(rest.take(i), u16::MAX as nat) {
                Some(n) => Some(n as u16),
                None => None,
            },
            after(rest, i + 1),
        )
    } else {
        (None, raw)
    }
}

/// The text of a control file that gives the sidebar's width.
pub open spec fn inline_control(width: u16, request: Seq<char>) -> Seq<char> {
    INLINE_CONTROL_PREFIX@ + digits(width as nat) + seq!['\n'] + request
}

proof fn lemma_prefix_len()
    ensures
        INLINE_CONTROL_PREFIX@.len() == 7,
{
    reveal_strlit("inline\t");
}

/// The text of a control file, taken apart.
pub fn control_request(raw: &str) -> (r: (Option<u16>, String))
    ensures
        (r.0, r.1@) == controlled(raw@),
{
    let v = chars_of(raw);
    proof {
        lemma_prefix_len();
    }
    if !starts_with_str(&v, INLINE_CONTROL_PREFIX) {
        return (None, raw.to_string());
    }
    let total = v.len();
    let rest = slice_of(&v, 7, total);
    let n = rest.len();
    let i = find(&rest, '\n', 0);
    if i == n {
        return (None, raw.to_string());
    }
    let head = slice_of(&rest, 0, i);
    assert(head@ =~= rest@.take(i as int));
    let request = text_slice(&rest, i + 1, n);
    (parse_width(&head), request)
}

fn parse_width(v: &[char]) -> (r: Option<u16>)
    ensures
        r == (match decimal(v@, u16::MAX as nat) {
            Some(n) => Some(n as u16),
            None => None,
        }),
{
    match parse_u64(v) {
        Some(n) => if n <= 65535 {
            Some(n as u16)
        } else {
            None
        },
        None => None,
    }
}

/// The text of a control file that gives the sidebar's width.
pub fn inline_request(width: u16, request: &str) -> (r: String)
    ensures
        r@ == inline_control(width, request@),
{
    let mut v = chars_of(INLINE_CONTROL_PREFIX);
    let d = digits_of(width as usize);
    crate::text::push_all(&mut v, &d);
    v.push('\n');
    push_text(&mut v, request);
    assert(v@ =~= inline_control(width, request@));
    text_of(&v)
}

/// A control file keeps the sidebar's width and the request.
pub proof fn law_control_reads_back(width: u16, request: Seq<char>)
    ensures
        controlled(inline_control(width, request)) == (Some(width), request),
{
    let raw = inline_control(width, request);
    let d = digits(width as nat);
    lemma_prefix_len();
    law_digits_read_back(width as nat);
    let rest = after(raw, 7);
    assert(raw.subrange(0, 7) =~= INLINE_CONTROL_PREFIX@);
    assert(rest =~= d + seq!['\n'] + request);
    assert forall|k: int| 0 <= k < d.len() implies rest[k] != '\n' by {
        assert(is_digit(d[k]));
    }
    crate::text::lemma_find_char_unique(rest, '\n', 0, d.len() as int);
    assert(rest.take(d.len() as int) =~= d);
    assert(after(rest, d.len() as int + 1) =~= request);
    assert(is_digit(d[0]));
}

/// The name of the control file of the sidebar in this pane.
pub open spec fn control_name(pane_id: Seq<char>) -> Seq<char> {
    "herdr-sidebar-preview-"@ + replaced(pane_id, ':', '_') + ".ctl"@
}

/// The control file of the sidebar in this pane, below the scratch directory:
/// one for each, so that no tab steers another's viewer.
pub fn control_path(scratch: &str, sidebar_pane_id: &str) -> (r: String)
    ensures
        r@ == under_dir(scratch@, control_name(sidebar_pane_id@)),
{
    let v = chars_of(sidebar_pane_id);
    let id = text_of(&replace(&v, ':', '_'));
    let name = cat3("herdr-sidebar-preview-", id.as_str(), ".ctl");
    join_path(scratch, name.as_str())
}

/// The file in which panes that were moved away are noted.
pub fn park_path(scratch: &str, owner: &str) -> (r: String)
    ensures
        r@ == under_dir(
            scratch@,
            "herdr-sidebar-preview-"@ + replaced(owner@, ':', '_') + ".park.json"@,
        ),
{
    let v = chars_of(owner);
    let id = text_of(&replace(&v, ':', '_'));
    let name = cat3("herdr-sidebar-preview-", id.as_str(), ".park.json");
    join_path(scratch, name.as_str())
}

/// A file's name without its last extension; a name that only begins with a
/// dot has none.
pub open spec fn stem(name: Seq<char>) -> Seq<char> {
    let i = crate::text::rfind_char(name, '.', name.len() as int);
    if i > 0 {
        name.take(i)
    } else {
        name
    }
}

/// The pane that a control file belongs to, by the file's name.
pub open spec fn owner_of(control: Seq<char>) -> Option<Seq<char>> {
    match crate::git::file_name(control) {
        None => None,
        Some(name) => if has_prefix(stem(name), "herdr-sidebar-preview-"@) && stem(name).len() > 22 {
            Some(replaced(after(stem(name), 22), '_', ':'))
        } else {
            None
        },
    }
}

/// The pane that a control file belongs to, by the file's name.
pub fn owner_pane_id(control: &str) -> (r: Option<String>)
    ensures
        opt_text(r) == owner_of(control@),
{
    let name = match crate::git::last_name(control) {
        Some(name) => name,
        None => {
            return None;
        },
    };
    let v = chars_of(name.as_str());
    let end = match crate::text::rfind(&v, '.') {
        Some(i) => if i > 0 {
            i
        } else {
            v.len()
        },
        None => v.len(),
    };
    let s = slice_of(&v, 0, end);
    assert(s@ =~= stem(name@));
    proof {
        reveal_strlit("herdr-sidebar-preview-");
    }
    if starts_with_str(&s, "herdr-sidebar-preview-") && s.len() > 22 {
        let id = slice_of(&s, 22, s.len());
        Some(text_of(&replace(&id, '_', ':')))
    } else {
        None
    }
}

/// A control file's name gives its pane's id back, where the id holds no
/// underscore and no slash.
pub proof fn law_control_files_name_their_pane(scratch: Seq<char>, pane_id: Seq<char>)
    requires
        pane_id.len() > 0,
        !has_char(pane_id, '_'),
        !has_char(pane_id, '/'),
    ensures
        owner_of(under_dir(scratch, control_name(pane_id))) == Some(pane_id),
{
    reveal_strlit("herdr-sidebar-preview-");
    reveal_strlit(".ctl");
    reveal_strlit("..");
    reveal_strlit(".");
    let id = replaced(pane_id, ':', '_');
    let head = "herdr-sidebar-preview-"@;
    let name = control_name(pane_id);
    assert forall|k: int| 0 <= k < name.len() implies name[k] != '/' by {
        if k < 22 {
            assert(name[k] == head[k]);
        } else if k < 22 + id.len() {
            assert(name[k] == id[k - 22]);
            assert(pane_id[k - 22] != '/');
        } else {
            assert(name[k] == ".ctl"@[k - 22 - id.len()]);
        }
    }
    let path = under_dir(scratch, name);
    assert(name[0] == 'h');
    let parts = split(path, '/');
    if scratch.len() == 0 {
        assert(path =~= name);
        crate::text::lemma_split_whole(name, '/');
    } else if scratch.last() == '/' {
        assert(path =~= scratch.drop_last() + seq!['/'] + name);
        crate::text::lemma_split_last(path, '/', name, scratch.drop_last());
    } else {
        crate::text::lemma_split_last(path, '/', name, scratch);
    }
    assert(parts.last() == name);
    assert(crate::git::file_name(path) == Some(name));
    // The last dot is that of the extension.
    let dot = 22 + id.len() as int;
    assert(name[dot] == '.');
    assert forall|k: int| dot < k < name.len() implies name[k] != '.' by {
        assert(name[k] == ".ctl"@[k - dot]);
    }
    lemma_rfind_at(name, '.', name.len() as int, dot);
    let s = stem(name);
    assert(s =~= head + id);
    assert(s.subrange(0, 22) =~= head);
    assert(after(s, 22) =~= id);
    assert forall|k: int| 0 <= k < pane_id.len() implies replaced(id, '_', ':')[k] == pane_id[k] by {
        assert(pane_id[k] != '_');
    }
    assert(replaced(id, '_', ':') =~= pane_id);
}

proof fn lemma_rfind_at(s: Seq<char>, c: char, to: int, at: int)
    requires
        0 <= at < to <= s.len(),
        s[at] == c,
        forall|k: int| at < k < to ==> s[k] != c,
    ensures
        crate::text::rfind_char(s, c, to) == at,
    decreases to,
{
    if to - 1 > at {
        lemma_rfind_at(s, c, to - 1, at);
    }
}

// ---- What a request is about ----

/// The path that a comment on the request's document names: relative to the
/// working directory where it lies below it, with forward slashes.
pub open spec fn shown_path(request: RequestView, cwd: Option<Seq<char>>) -> Option<Seq<char>> {
    match request {
        RequestView::File(path) => Some(shown_below(path, cwd)),
        RequestView::FileLine { path, .. } => Some(shown_below(path, cwd)),
        RequestView::SearchFile { path, .. } => Some(shown_below(path, cwd)),
        RequestView::Diff { rel, .. } => Some(replaced(rel, '\\', '/')),
        RequestView::RefDiff { rel, .. } => Some(replaced(rel, '\\', '/')),
        RequestView::Show { .. } => None,
    }
}

pub open spec fn shown_below(path: Seq<char>, cwd: Option<Seq<char>>) -> Seq<char> {
    let shown = match cwd {
        Some(dir) => match below(path, dir) {
            Some(rel) => rel,
            None => path,
        },
        None => path,
    };
    replaced(shown, '\\', '/')
}

fn forward(path: &str) -> (r: String)
    ensures
        r@ == replaced(path@, '\\', '/'),
{
    let v = chars_of(path);
    text_of(&replace(&v, '\\', '/'))
}

fn shown_from(path: &str, cwd: Option<&str>) -> (r: String)
    ensures
        r@ == shown_below(path@, opt_str(cwd)),
{
    if let Some(dir) = cwd {
        let v = chars_of(path);
        let d = chars_of(dir);
        if let Some(rel) = strip_root(&v, &d) {
            return text_of(&replace(&rel, '\\', '/'));
        }
    }
    forward(path)
}

/// The path that a comment on the request's document names.
pub fn request_path(request: &Request, cwd: Option<&str>) -> (r: Option<String>)
    ensures
        opt_text(r) == shown_path(request@, opt_str(cwd)),
{
    match request {
        Request::File(path) => Some(shown_from(path.as_str(), cwd)),
        Request::FileLine { path, .. } => Some(shown_from(path.as_str(), cwd)),
        Request::SearchFile { path, .. } => Some(shown_from(path.as_str(), cwd)),
        Request::Diff { rel, .. } => Some(forward(rel.as_str())),
        Request::RefDiff { rel, .. } => Some(forward(rel.as_str())),
        Request::Show { .. } => None,
    }
}

/// The file that a request is about.
pub open spec fn file_of(request: RequestView) -> Option<Seq<char>> {
    match request {
        RequestView::File(path) => Some(path),
        RequestView::FileLine { path, .. } => Some(path),
        RequestView::SearchFile { path, .. } => Some(path),
        RequestView::Diff { root, rel, .. } => Some(under_dir(root, rel)),
        RequestView::RefDiff { root, rel, .. } => Some(under_dir(root, rel)),
        RequestView::Show { root, path, .. } => match path {
            Some(path) => Some(under_dir(root, path)),
            None => None,
        },
    }
}

/// The file that a request is about.
pub fn request_file_path(request: &Request) -> (r: Option<String>)
    ensures
        opt_text(r) == file_of(request@),
{
    match request {
        Request::File(path) => Some(path.clone()),
        Request::FileLine { path, .. } => Some(path.clone()),
        Request::SearchFile { path, .. } => Some(path.clone()),
        Request::Diff { root, rel, .. } => Some(join_path(root.as_str(), rel.as_str())),
        Request::RefDiff { root, rel, .. } => Some(join_path(root.as_str(), rel.as_str())),
        Request::Show { root, path, .. } => match path {
            Some(path) => Some(join_path(root.as_str(), path.as_str())),
            None => None,
        },
    }
}

/// Whether two requests are about one file.
pub open spec fn same_file(a: RequestView, b: RequestView) -> bool {
    match (file_of(a), file_of(b)) {
        (Some(x), Some(y)) => same_parts(x, y),
        _ => false,
    }
}

/// Whether two requests are about one file.
pub fn same_preview_file(left: &Request, right: &Request) -> (r: bool)
    ensures
        r == same_file(left@, right@),
{
    match (request_file_path(left), request_file_path(right)) {
        (Some(x), Some(y)) => same_path(x.as_str(), y.as_str()),
        _ => false,
    }
}

fn same_option(a: &Option<String>, b: &Option<String>) -> (r: bool)
    ensures
        r == (opt_text(*a) == opt_text(*b)),
{
    match (a, b) {
        (Some(x), Some(y)) => eq_text(x.as_str(), y.as_str()),
        (None, None) => true,
        _ => false,
    }
}

/// Whether two requests ask for the same: what they hold is the same, the paths of files
/// and roots by their parts.
pub open spec fn alike(a: RequestView, b: RequestView) -> bool {
    match (a, b) {
        (RequestView::File(x), RequestView::File(y)) => same_parts(x, y),
        (
            RequestView::FileLine { path: x, .. },
            RequestView::FileLine { path: y, line },
        ) => same_parts(x, y) && a == (RequestView::FileLine { path: x, line }),
        (
            RequestView::SearchFile { path: x, .. },
            RequestView::SearchFile { path: y, line, query, regex, case_sensitive, whole_word },
        ) => same_parts(x, y) && a == (RequestView::SearchFile {
            path: x,
            line,
            query,
            regex,
            case_sensitive,
            whole_word,
        }),
        (
            RequestView::Diff { root: x, .. },
            RequestView::Diff { root: y, rel, kind, line },
        ) => same_parts(x, y) && a == (RequestView::Diff { root: x, rel, kind, line }),
        (
            RequestView::RefDiff { root: x, .. },
            RequestView::RefDiff { root: y, old_spec, new_spec, rel, old_rel },
        ) => same_parts(x, y) && a == (RequestView::RefDiff {
            root: x,
            old_spec,
            new_spec,
            rel,
            old_rel,
        }),
        (
            RequestView::Show { root: x, .. },
            RequestView::Show { root: y, spec, path },
        ) => same_parts(x, y) && a == (RequestView::Show { root: x, spec, path }),
        _ => false,
    }
}

/// Whether two requests ask for the same.
pub fn same_request(a: &Request, b: &Request) -> (r: bool)
    ensures
        r == alike(a@, b@),
{
    match (a, b) {
        (Request::File(x), Request::File(y)) => same_path(x.as_str(), y.as_str()),
        (
            Request::FileLine { path: x, line: m },
            Request::FileLine { path: y, line: n },
        ) => same_path(x.as_str(), y.as_str()) && *m == *n,
        (
            Request::SearchFile { path: x, line: m, query: p, regex: a1, case_sensitive: a2, whole_word: a3 },
            Request::SearchFile { path: y, line: n, query: q, regex: b1, case_sensitive: b2, whole_word: b3 },
        ) => same_path(x.as_str(), y.as_str()) && *m == *n && eq_text(p.as_str(), q.as_str()) && *a1
            == *b1 && *a2 == *b2 && *a3 == *b3,
        (
            Request::Diff { root: r1, rel: l1, kind: k1, line: m },
            Request::Diff { root: r2, rel: l2, kind: k2, line: n },
        ) => same_path(r1.as_str(), r2.as_str()) && eq_text(l1.as_str(), l2.as_str()) && eq_text(
            k1.as_str(),
            k2.as_str(),
        ) && same_number(*m, *n),
        (
            Request::RefDiff { root: r1, old_spec: o1, new_spec: n1, rel: l1, old_rel: f1 },
            Request::RefDiff { root: r2, old_spec: o2, new_spec: n2, rel: l2, old_rel: f2 },
        ) => same_path(r1.as_str(), r2.as_str()) && eq_text(o1.as_str(), o2.as_str()) && eq_text(
            n1.as_str(),
            n2.as_str(),
        ) && eq_text(l1.as_str(), l2.as_str()) && same_option(f1, f2),
        (
            Request::Show { root: r1, spec: s1, path: p1 },
            Request::Show { root: r2, spec: s2, path: p2 },
        ) => same_path(r1.as_str(), r2.as_str()) && eq_text(s1.as_str(), s2.as_str()) && same_option(
            p1,
            p2,
        ),
        _ => false,
    }
}

fn same_number(a: Option<usize>, b: Option<usize>) -> (r: bool)
    ensures
        r == (a == b),
{
    match (a, b) {
        (Some(x), Some(y)) => x == y,
        (None, None) => true,
        _ => false,
    }
}

} // verus!
