//! JSON texts: a list or an object of plain values.

use vstd::prelude::*;

use crate::git::strs;
use crate::text::{eq_text, has_char};

verus! {

/// A JSON value. Of numbers only those that a `u64` holds are told apart, and of what
/// holds other values nothing.
#[derive(Debug, PartialEq, Eq)]
pub enum Json {
    Null,
    Bool(bool),
    Number(Option<u64>),
    Text(String),
    Nested,
}

#[verifier::ext_equal]
pub enum JsonView {
    Null,
    Bool(bool),
    Number(Option<u64>),
    Text(Seq<char>),
    Nested,
}

impl View for Json {
    type V = JsonView;

    open spec fn view(&self) -> JsonView {
        match *self {
            Json::Null => JsonView::Null,
            Json::Bool(b) => JsonView::Bool(b),
            Json::Number(n) => JsonView::Number(n),
            Json::Text(s) => JsonView::Text(s@),
            Json::Nested => JsonView::Nested,
        }
    }
}

impl Clone for Json {
    fn clone(&self) -> (r: Json)
        ensures
            r@ == self@,
    {
        match self {
            Json::Null => Json::Null,
            Json::Bool(b) => Json::Bool(*b),
            Json::Number(n) => Json::Number(*n),
            Json::Text(s) => Json::Text(s.clone()),
            Json::Nested => Json::Nested,
        }
    }
}

/// What a JSON text holds.
#[derive(Debug, PartialEq, Eq)]
pub enum Document {
    Plain(Json),
    List(Vec<Json>),
    Object(Vec<(String, Json)>),
}

#[verifier::ext_equal]
pub enum DocumentView {
    Plain(JsonView),
    List(Seq<JsonView>),
    Object(Map<Seq<char>, JsonView>),
}

pub open spec fn values(v: Seq<Json>) -> Seq<JsonView> {
    v.map_values(|j: Json| j@)
}

/// The members of an object; the last of a name counts.
pub open spec fn members(v: Seq<(String, Json)>) -> Map<Seq<char>, JsonView>
    decreases v.len(),
{
    if v.len() == 0 {
        Map::empty()
    } else {
        members(v.drop_last()).insert(v.last().0@, v.last().1@)
    }
}

impl View for Document {
    type V = DocumentView;

    open spec fn view(&self) -> DocumentView {
        match *self {
            Document::Plain(j) => DocumentView::Plain(j@),
            Document::List(v) => DocumentView::List(values(v@)),
            Document::Object(v) => DocumentView::Object(members(v@)),
        }
    }
}

pub open spec fn document_view(d: Option<Document>) -> Option<DocumentView> {
    match d {
        Some(d) => Some(d@),
        None => None,
    }
}

/// What a text holds, as `serde_json` reads it; nothing where it is no JSON.
pub uninterp spec fn json_of(text: Seq<char>) -> Option<DocumentView>;

/// The compact text of an object with these members, as `serde_json` writes it.
pub uninterp spec fn json_text(members: Map<Seq<char>, JsonView>) -> Seq<char>;

/// `serde_json::from_str` into a `serde_json::Value`: a function of the text. Of a
/// member that an object repeats only the last value is kept.
#[verifier::external_body]
pub(crate) fn read_json(text: &str) -> (r: Option<Document>)
    ensures
        document_view(r) == json_of(text@),
{
    let plain = |v: serde_json::Value| match v {
        serde_json::Value::Null => Json::Null,
        serde_json::Value::Bool(b) => Json::Bool(b),
        serde_json::Value::Number(n) => Json::Number(n.as_u64()),
        serde_json::Value::String(s) => Json::Text(s),
        serde_json::Value::Array(_) | serde_json::Value::Object(_) => Json::Nested,
    };
    Some(match serde_json::from_str(text).ok()? {
        serde_json::Value::Array(v) => Document::List(v.into_iter().map(plain).collect()),
        serde_json::Value::Object(m) =>
            Document::Object(m.into_iter().map(|(k, v)| (k, plain(v))).collect()),
        v => Document::Plain(plain(v)),
    })
}

/// Whether a value can be written: it is no number that is not known, and holds no
/// others.
pub open spec fn writable(j: JsonView) -> bool {
    !(j is Nested) && j != JsonView::Number(None)
}

/// `serde_json::Value::to_string` of an object: a function of its members, of which the
/// last of a name counts. What it writes reads back as the same members, holds no tab
/// (JSON escapes control characters) and ends in a brace.
#[verifier::external_body]
pub(crate) fn write_json(list: Vec<(String, Json)>) -> (r: String)
    requires
        forall|i: int| 0 <= i < list@.len() ==> writable((#[trigger] list@[i]).1@),
    ensures
        r@ == json_text(members(list@)),
        json_of(r@) == Some(DocumentView::Object(members(list@))),
        !has_char(r@, '\t'),
        r@.len() > 0 && r@.last() == '}',
{
    let value = |j: Json| match j {
        Json::Null => serde_json::Value::Null,
        Json::Bool(b) => serde_json::Value::from(b),
        Json::Number(n) => serde_json::Value::from(n),
        Json::Text(s) => serde_json::Value::from(s),
        Json::Nested => serde_json::Value::Null,
    };
    let map = list.into_iter().map(|(k, j)| (k, value(j))).collect();
    serde_json::Value::Object(map).to_string()
}

/// The values of a document's fields: those members of an object, in the order of the
/// names, or a list of as many values.
pub open spec fn fields_of(d: DocumentView, names: Seq<Seq<char>>) -> Option<Seq<JsonView>> {
    match d {
        DocumentView::Object(m) => if forall|i: int|
            0 <= i < names.len() ==> m.contains_key(#[trigger] names[i]) {
            Some(Seq::new(names.len(), |i: int| m[names[i]]))
        } else {
            None
        },
        DocumentView::List(v) => if v.len() == names.len() {
            Some(v)
        } else {
            None
        },
        DocumentView::Plain(_) => None,
    }
}

fn find_member<'a>(list: &'a Vec<(String, Json)>, name: &str) -> (r: Option<&'a Json>)
    ensures
        match r {
            Some(j) => members(list@).contains_key(name@) && members(list@)[name@] == j@,
            None => !members(list@).contains_key(name@),
        },
{
    let mut n = list.len();
    assert(list@.take(n as int) =~= list@);
    while n > 0
        invariant
            n <= list@.len(),
            members(list@).contains_key(name@) <==> members(list@.take(n as int)).contains_key(
                name@,
            ),
            members(list@).contains_key(name@) ==> members(list@)[name@] == members(
                list@.take(n as int),
            )[name@],
        decreases n,
    {
        assert(list@.take(n as int).drop_last() =~= list@.take(n - 1));
        assert(list@.take(n as int).last() == list@[n - 1]);
        if eq_text(list[n - 1].0.as_str(), name) {
            return Some(&list[n - 1].1);
        }
        n -= 1;
    }
    None
}

/// The values of a document's fields.
pub fn fields(d: Document, names: &[&str]) -> (r: Option<Vec<Json>>)
    ensures
        (match r {
            Some(v) => Some(values(v@)),
            None => None,
        }) == fields_of(d@, strs(names@)),
{
    let ghost wanted = strs(names@);
    match d {
        Document::Plain(_) => None,
        Document::List(v) => {
            assert(values(v@).len() == v@.len());
            assert(wanted.len() == names@.len());
            if v.len() == names.len() {
                Some(v)
            } else {
                None
            }
        },
        Document::Object(list) => {
            let ghost m = members(list@);
            let mut out: Vec<Json> = Vec::new();
            let mut i: usize = 0;
            while i < names.len()
                invariant
                    i <= names@.len(),
                    wanted == strs(names@),
                    m == members(list@),
                    d@ == DocumentView::Object(m),
                    out@.len() == i,
                    forall|k: int|
                        0 <= k < i ==> m.contains_key(#[trigger] wanted[k]) && values(out@)[k]
                            == m[wanted[k]],
                decreases names@.len() - i,
            {
                assert(wanted[i as int] == names@[i as int]@);
                match find_member(&list, names[i]) {
                    Some(j) => {
                        let ghost before = values(out@);
                        out.push(j.clone());
                        assert(values(out@) =~= before.push(j@));
                    },
                    None => {
                        assert(!m.contains_key(wanted[i as int]));
                        return None;
                    },
                }
                i += 1;
            }
            assert(values(out@) =~= Seq::new(wanted.len(), |k: int| m[wanted[k]]));
            Some(out)
        },
    }
}

} // verus!
