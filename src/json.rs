use vstd::prelude::*;
use serde_json::Value;

verus! {

broadcast use {vstd::std_specs::vec::group_vec_axioms, vstd::seq::group_seq_axioms};

/// A JSON document as the library reads it. Numbers are kept as integers
/// when they are integral, else as their text.
#[derive(Debug)]
pub enum Json {
    Null,
    Bool(bool),
    Int(i128),
    Float(String),
    Str(String),
    Array(Vec<Json>),
    Object(Vec<(String, Json)>),
}

/// The mathematical value of a [`Json`] document.
pub enum JsonV {
    Null,
    Bool(bool),
    Int(int),
    Float(Seq<char>),
    Str(Seq<char>),
    Array(Seq<JsonV>),
    Object(Seq<(Seq<char>, JsonV)>),
}

impl Json {
    pub open spec fn view(self) -> JsonV
        decreases self, 0nat,
    {
        match self {
            Json::Null => JsonV::Null,
            Json::Bool(b) => JsonV::Bool(b),
            Json::Int(i) => JsonV::Int(i as int),
            Json::Float(t) => JsonV::Float(t@),
            Json::Str(s) => JsonV::Str(s@),
            Json::Array(v) => JsonV::Array(view_items(v@)),
            Json::Object(m) => JsonV::Object(view_entries(m@)),
        }
    }
}

pub open spec fn view_items(s: Seq<Json>) -> Seq<JsonV>
    decreases s, 1nat,
{
    if s.len() == 0 {
        Seq::empty()
    } else {
        view_items(s.drop_last()).push(s.last().view())
    }
}

pub open spec fn view_entries(s: Seq<(String, Json)>) -> Seq<(Seq<char>, JsonV)>
    decreases s, 1nat,
{
    if s.len() == 0 {
        Seq::empty()
    } else {
        view_entries(s.drop_last()).push((s.last().0@, s.last().1.view()))
    }
}

pub proof fn lemma_view_items(s: Seq<Json>)
    ensures
        view_items(s).len() == s.len(),
        forall|i: int| 0 <= i < s.len() ==> #[trigger] view_items(s)[i] == s[i].view(),
    decreases s.len(),
{
    if s.len() > 0 {
        lemma_view_items(s.drop_last());
    }
}

pub proof fn lemma_view_entries(s: Seq<(String, Json)>)
    ensures
        view_entries(s).len() == s.len(),
        forall|i: int| 0 <= i < s.len() ==> #[trigger] view_entries(s)[i] == (s[i].0@, s[i].1.view()),
    decreases s.len(),
{
    if s.len() > 0 {
        lemma_view_entries(s.drop_last());
    }
}

/// The value of the first entry of `entries` named `key`.
pub open spec fn entry_value(entries: Seq<(Seq<char>, JsonV)>, key: Seq<char>) -> Option<JsonV>
    decreases entries.len(),
{
    if entries.len() == 0 {
        None
    } else if entries[0].0 == key {
        Some(entries[0].1)
    } else {
        entry_value(entries.drop_first(), key)
    }
}

/// The member `key` of `j`, when `j` is an object that has one.
pub open spec fn member(j: JsonV, key: Seq<char>) -> Option<JsonV> {
    match j {
        JsonV::Object(entries) => entry_value(entries, key),
        _ => None,
    }
}

/// The text of `j`, when it is a JSON string.
pub open spec fn text_value(j: JsonV) -> Option<Seq<char>> {
    match j {
        JsonV::Str(s) => Some(s),
        _ => None,
    }
}

/// The text of member `key` of `j`, when it is a string.
pub open spec fn text_member(j: JsonV, key: Seq<char>) -> Option<Seq<char>> {
    match member(j, key) {
        Some(v) => text_value(v),
        None => None,
    }
}

impl Json {
    /// The member `key` of this document, when it is an object that has one.
    pub fn get(&self, key: &str) -> (r: Option<&Json>)
        ensures
            r is Some == member(self@, key@) is Some,
            r is Some ==> r->0@ == member(self@, key@)->0,
    {
        match self {
            Json::Object(entries) => {
                proof { lemma_view_entries(entries@); }
                let ghost es = view_entries(entries@);
                assert(self@ == JsonV::Object(es));
                assert(es.skip(0) =~= es);
                let mut i: usize = 0;
                while i < entries.len()
                    invariant
                        0 <= i <= entries@.len(),
                        es == view_entries(entries@),
                        self@ == JsonV::Object(es),
                        es.len() == entries@.len(),
                        forall|k: int| 0 <= k < entries@.len() ==> #[trigger] es[k] == (entries@[k].0@, entries@[k].1.view()),
                        entry_value(es, key@) == entry_value(es.skip(i as int), key@),
                    decreases entries@.len() - i,
                {
                    assert(es.skip(i as int).drop_first() =~= es.skip(i + 1));
                    assert(es.skip(i as int)[0] == es[i as int]);
                    if crate::text::str_eq(entries[i].0.as_str(), key) {
                        assert(entry_value(es.skip(i as int), key@) == Some(es[i as int].1));
                        return Some(&entries[i].1);
                    }
                    i = i + 1;
                }
                None
            },
            _ => None,
        }
    }

    /// The text of this document, when it is a JSON string.
    pub fn as_str(&self) -> (r: Option<&str>)
        ensures
            r is Some == text_value(self@) is Some,
            r is Some ==> r->0@ == text_value(self@)->0,
    {
        match self {
            Json::Str(s) => Some(s.as_str()),
            _ => None,
        }
    }

    /// The text of member `key`, when it is a string.
    pub fn get_str(&self, key: &str) -> (r: Option<&str>)
        ensures
            r is Some == text_member(self@, key@) is Some,
            r is Some ==> r->0@ == text_member(self@, key@)->0,
    {
        match self.get(key) {
            Some(v) => v.as_str(),
            None => None,
        }
    }

    /// The elements of this document, when it is an array.
    pub fn as_array(&self) -> (r: Option<&Vec<Json>>)
        ensures
            r is Some == self@ is Array,
            r is Some ==> view_items(r->0@) == self@->Array_0,
    {
        match self {
            Json::Array(v) => Some(v),
            _ => None,
        }
    }
}

/// A deep copy of a document.
pub fn copy_json(j: &Json) -> (r: Json)
    ensures
        r@ == j@,
    decreases j,
{
    match j {
        Json::Null => Json::Null,
        Json::Bool(b) => Json::Bool(*b),
        Json::Int(i) => Json::Int(*i),
        Json::Float(t) => Json::Float(crate::text::copy_str(t.as_str())),
        Json::Str(t) => Json::Str(crate::text::copy_str(t.as_str())),
        Json::Array(v) => {
            proof { lemma_view_items(v@); }
            let mut out: Vec<Json> = Vec::new();
            let mut i: usize = 0;
            while i < v.len()
                invariant
                    0 <= i <= v@.len(),
                    out@.len() == i,
                    *j == Json::Array(*v),
                    forall|k: int| 0 <= k < i ==> #[trigger] out@[k].view() == v@[k].view(),
                decreases v@.len() - i,
            {
                proof {
                    assert(decreases_to!(*j => j->Array_0));
                    assert(decreases_to!(j->Array_0 => j->Array_0@));
                    assert(decreases_to!(j->Array_0@ => j->Array_0@[i as int]));
                }
                out.push(copy_json(&v[i]));
                i = i + 1;
            }
            proof { lemma_view_items(out@); }
            assert(view_items(out@) =~= view_items(v@));
            Json::Array(out)
        },
        Json::Object(m) => {
            proof { lemma_view_entries(m@); }
            let mut out: Vec<(String, Json)> = Vec::new();
            let mut i: usize = 0;
            while i < m.len()
                invariant
                    0 <= i <= m@.len(),
                    out@.len() == i,
                    *j == Json::Object(*m),
                    forall|k: int| 0 <= k < i ==> #[trigger] out@[k].0@ == m@[k].0@ && out@[k].1.view() == m@[k].1.view(),
                decreases m@.len() - i,
            {
                proof {
                    assert(decreases_to!(*j => j->Object_0));
                    assert(decreases_to!(j->Object_0 => j->Object_0@));
                    assert(decreases_to!(j->Object_0@ => j->Object_0@[i as int]));
                    assert(decreases_to!(j->Object_0@[i as int] => j->Object_0@[i as int].1));
                }
                let key = crate::text::copy_str(m[i].0.as_str());
                let val = copy_json(&m[i].1);
                out.push((key, val));
                i = i + 1;
            }
            proof { lemma_view_entries(out@); }
            assert(view_entries(out@) =~= view_entries(m@));
            Json::Object(out)
        },
    }
}

#[verifier::external_type_specification]
#[verifier::external_body]
pub struct ExValue(serde_json::Value);

/// The document that `serde_json` parses from `s`, or `None` when `s` is not JSON.
pub uninterp spec fn json_parsed(s: Seq<char>) -> Option<JsonV>;

/// The compact text that `serde_json` writes for `j`.
pub uninterp spec fn json_text_of(j: JsonV) -> Seq<char>;

#[verifier::external_type_specification]
#[verifier::external_body]
pub struct ExNumber(serde_json::Number);

/// Copies a `serde_json::Number`: as an integer when it is one, else as its text.
#[verifier::external_body]
fn number_json(n: &serde_json::Number) -> Json {
    match n.as_i64().map(i128::from).or(n.as_u64().map(i128::from)) {
        Some(i) => Json::Int(i),
        None => Json::Float(n.to_string()),
    }
}

/// The `serde_json::Value` of a number's text.
#[verifier::external_body]
fn number_value(text: &str) -> Value {
    serde_json::from_str(text).unwrap_or(Value::Null)
}

/// Copies a `serde_json::Value` into a [`Json`], variant for variant.
#[verifier::external_body]
fn from_value(v: &Value) -> Json {
    match v {
        Value::Null => Json::Null,
        Value::Bool(b) => Json::Bool(*b),
        Value::Number(n) => number_json(n),
        Value::String(s) => Json::Str(s.clone()),
        Value::Array(a) => Json::Array(a.iter().map(from_value).collect()),
        Value::Object(m) => Json::Object(m.iter().map(|(k, x)| (k.clone(), from_value(x))).collect()),
    }
}

/// Copies a [`Json`] into a `serde_json::Value`, variant for variant.
#[verifier::external_body]
fn to_value(j: &Json) -> Value {
    match j {
        Json::Null => Value::Null,
        Json::Bool(b) => Value::Bool(*b),
        Json::Int(i) => number_value(&i.to_string()),
        Json::Float(t) => number_value(t),
        Json::Str(s) => Value::String(s.clone()),
        Json::Array(a) => Value::Array(a.iter().map(to_value).collect()),
        Json::Object(m) => Value::Object(m.iter().map(|(k, x)| (k.clone(), to_value(x))).collect()),
    }
}

/// Relies on `serde_json::from_str::<serde_json::Value>`: the parse depends
/// on the text alone; `Err` for text that is not JSON.
#[verifier::external_body]
fn parse_json_text(s: &str) -> (r: Option<Json>)
    ensures
        r is Some == json_parsed(s@) is Some,
        r is Some ==> r->0@ == json_parsed(s@)->0,
{
    serde_json::from_str::<Value>(s).ok().map(|v| from_value(&v))
}

/// Relies on `serde_json::to_string` of a `serde_json::Value`, which cannot
/// fail: the text depends on the document alone.
#[verifier::external_body]
fn write_json_text(j: &Json) -> (r: String)
    ensures
        r@ == json_text_of(j@),
{
    serde_json::to_string(&to_value(j)).unwrap_or_default()
}

/// Parses JSON text.
pub fn parse_json(s: &str) -> (r: Option<Json>)
    ensures
        r is Some == json_parsed(s@) is Some,
        r is Some ==> r->0@ == json_parsed(s@)->0,
{
    parse_json_text(s)
}

/// The compact JSON text of a document.
pub fn json_text(j: &Json) -> (r: String)
    ensures
        r@ == json_text_of(j@),
{
    write_json_text(j)
}

pub open spec fn opt_view(o: Option<Json>) -> Option<JsonV> {
    match o {
        Some(j) => Some(j@),
        None => None,
    }
}

/// A JSON string holding `s`.
pub fn jstr(s: &str) -> (r: Json)
    ensures
        r@ == JsonV::Str(s@),
{
    Json::Str(crate::text::copy_str(s))
}

/// A JSON object with the given members, in order.
pub fn object(entries: Vec<(String, Json)>) -> (r: Json)
    ensures
        r@ == JsonV::Object(view_entries(entries@)),
{
    Json::Object(entries)
}

/// The member `(key, value)`.
pub fn entry(key: &str, value: Json) -> (r: (String, Json))
    ensures
        r.0@ == key@,
        r.1 == value,
{
    (crate::text::copy_str(key), value)
}

} // verus!
