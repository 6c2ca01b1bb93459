//! JSON documents as plain values.
//!
//! Schema documents, facet values and the bags of unrecognised fields are
//! held as `JsonValue`. Its mathematical model, `JsonModel`, is what the
//! contracts of the crate speak of.

use crate::strmap::StrMap;
use vstd::prelude::*;

verus! {

/// Whether `serde_json` reads the text as one JSON number.
pub uninterp spec fn reads_as_number(text: Seq<char>) -> bool;

/// Parses the text with `serde_json`'s `FromStr` for `Value` and tells
/// whether the outcome is a number.
#[verifier::external_body]
fn numeral_reads(text: &str) -> (r: bool)
    ensures
        r == reads_as_number(text@),
{
    matches!(text.parse::<serde_json::Value>(), Ok(serde_json::Value::Number(_)))
}

/// A JSON number, kept as the numeral that denotes it. Only a text that
/// reads as a number can be held.
#[derive(Debug, PartialEq, Eq)]
pub struct JsonNumber {
    text: String,
}

impl View for JsonNumber {
    type V = Seq<char>;

    closed spec fn view(&self) -> Seq<char> {
        self.text@
    }
}

impl JsonNumber {
    #[verifier::type_invariant]
    closed spec fn holds_numeral(&self) -> bool {
        reads_as_number(self.text@)
    }

    /// The number that the text denotes; none where the text is no number.
    pub fn parse(text: &str) -> (r: Option<JsonNumber>)
        ensures
            match r {
                Some(n) => reads_as_number(text@) && n@ == text@,
                None => !reads_as_number(text@),
            },
    {
        if numeral_reads(text) {
            Some(JsonNumber { text: text.to_owned() })
        } else {
            None
        }
    }

    /// The numeral.
    pub fn as_str(&self) -> (r: &str)
        ensures
            r@ == self@,
    {
        self.text.as_str()
    }

    /// The numeral of a number reads as a number.
    pub fn check(&self)
        ensures
            reads_as_number(self@),
    {
        proof {
            use_type_invariant(self);
        }
    }
}

impl Clone for JsonNumber {
    fn clone(&self) -> (r: Self)
        ensures
            r@ == self@,
    {
        proof {
            use_type_invariant(self);
        }
        JsonNumber { text: self.text.clone() }
    }
}

/// A JSON document.
#[derive(Debug, PartialEq, Eq)]
pub enum JsonValue {
    /// `null`.
    Null,
    /// `true` or `false`.
    Bool(bool),
    /// A number, kept as the numeral that denotes it.
    Number(JsonNumber),
    /// A string.
    Text(String),
    /// An array.
    Array(Vec<JsonValue>),
    /// An object: its members by name.
    Object(StrMap<JsonValue>),
}

/// The mathematical model of a JSON document.
pub enum JsonModel {
    Null,
    Bool(bool),
    Number(Seq<char>),
    Text(Seq<char>),
    Array(Seq<JsonModel>),
    Object(Seq<(Seq<char>, JsonModel)>),
}

/// The model of a document.
pub open spec fn json_model(v: JsonValue) -> JsonModel
    decreases v,
{
    match v {
        JsonValue::Null => JsonModel::Null,
        JsonValue::Bool(b) => JsonModel::Bool(b),
        JsonValue::Number(n) => JsonModel::Number(n@),
        JsonValue::Text(s) => JsonModel::Text(s@),
        JsonValue::Array(a) => JsonModel::Array(
            Seq::new(
                a@.len(),
                |i: int|
                    if 0 <= i < a@.len() {
                        json_model(a@[i])
                    } else {
                        JsonModel::Null
                    },
            ),
        ),
        JsonValue::Object(m) => JsonModel::Object(
            Seq::new(
                m.entries@.len(),
                |i: int|
                    if 0 <= i < m.entries@.len() {
                        (m.entries@[i].0@, json_model(m.entries@[i].1))
                    } else {
                        (Seq::<char>::empty(), JsonModel::Null)
                    },
            ),
        ),
    }
}

impl DeepView for JsonValue {
    type V = JsonModel;

    open spec fn deep_view(&self) -> JsonModel {
        json_model(*self)
    }
}

/// The models of a sequence of documents.
pub open spec fn json_models(a: Seq<JsonValue>) -> Seq<JsonModel> {
    Seq::new(a.len(), |i: int| json_model(a[i]))
}

/// The model of an array is the sequence of its elements' models.
pub proof fn lemma_model_of_array(a: Vec<JsonValue>)
    ensures
        json_model(JsonValue::Array(a)) == JsonModel::Array(json_models(a@)),
{
    assert(json_model(JsonValue::Array(a))->Array_0 =~= json_models(a@));
}

/// The model of an object is the deep view of its members.
pub proof fn lemma_model_of_object(m: StrMap<JsonValue>)
    ensures
        json_model(JsonValue::Object(m)) == JsonModel::Object(m.deep_view()),
{
    assert(json_model(JsonValue::Object(m))->Object_0 =~= m.deep_view());
}

/// A copy of a map of documents.
#[verifier::rlimit(50)]
pub fn clone_members(m: &StrMap<JsonValue>) -> (r: StrMap<JsonValue>)
    ensures
        r.deep_view() == m.deep_view(),
        r.spec_keys() == m.spec_keys(),
    decreases m,
{
    let mut entries: Vec<(String, JsonValue)> = Vec::new();
    let mut i: usize = 0;
    while i < m.entries.len()
        invariant
            i <= m.entries@.len(),
            entries@.len() == i,
            forall|j: int|
                0 <= j < i ==> (#[trigger] entries@[j]).0@ == m.entries@[j].0@ && json_model(
                    entries@[j].1,
                ) == json_model(m.entries@[j].1),
        decreases m.entries@.len() - i,
    {
        let key = m.entries[i].0.clone();
        let value = clone_json(&m.entries[i].1);
        entries.push((key, value));
        i += 1;
    }
    let r = StrMap { entries };
    assert(r.deep_view() =~= m.deep_view());
    assert(r.spec_keys() =~= m.spec_keys());
    r
}

/// A copy of a document.
#[verifier::rlimit(50)]
pub fn clone_json(v: &JsonValue) -> (r: JsonValue)
    ensures
        json_model(r) == json_model(*v),
    decreases v,
{
    match v {
        JsonValue::Null => JsonValue::Null,
        JsonValue::Bool(b) => JsonValue::Bool(*b),
        JsonValue::Number(n) => JsonValue::Number(n.clone()),
        JsonValue::Text(s) => JsonValue::Text(s.clone()),
        JsonValue::Array(a) => {
            let mut out: Vec<JsonValue> = Vec::new();
            let mut i: usize = 0;
            while i < a.len()
                invariant
                    i <= a@.len(),
                    out@.len() == i,
                    v is Array,
                    *a == v->Array_0,
                    forall|j: int|
                        0 <= j < i ==> json_model(#[trigger] out@[j]) == json_model(a@[j]),
                decreases a@.len() - i,
            {
                assert(decreases_to!(*v => v->Array_0@[i as int]));
                let item = clone_json(&a[i]);
                out.push(item);
                i += 1;
            }
            proof {
                lemma_model_of_array(*a);
                lemma_model_of_array(out);
                assert(json_models(out@) =~= json_models(a@));
            }
            JsonValue::Array(out)
        },
        JsonValue::Object(m) => {
            let members = clone_members(m);
            proof {
                lemma_model_of_object(*m);
                lemma_model_of_object(members);
            }
            JsonValue::Object(members)
        },
    }
}

impl Clone for JsonValue {
    fn clone(&self) -> (r: Self)
        ensures
            r.deep_view() == self.deep_view(),
    {
        clone_json(self)
    }
}

impl JsonValue {
    /// The member called `key`, where this is an object that has one.
    pub open spec fn spec_member(&self, key: Seq<char>) -> Option<JsonValue> {
        match *self {
            JsonValue::Object(m) => m.spec_get(key),
            _ => None,
        }
    }

    /// The text, where this is a string.
    pub open spec fn spec_text(&self) -> Option<Seq<char>> {
        match *self {
            JsonValue::Text(s) => Some(s@),
            _ => None,
        }
    }

    /// The member called `key`, where this is an object that has one.
    pub fn get(&self, key: &str) -> (r: Option<&JsonValue>)
        ensures
            match r {
                Some(v) => self.spec_member(key@) == Some(*v),
                None => self.spec_member(key@) is None,
            },
    {
        match self {
            JsonValue::Object(m) => m.get(key),
            _ => None,
        }
    }

    /// The text, where this is a string.
    pub fn as_str(&self) -> (r: Option<&str>)
        ensures
            match r {
                Some(s) => self.spec_text() == Some(s@),
                None => self.spec_text() is None,
            },
    {
        match self {
            JsonValue::Text(s) => Some(s.as_str()),
            _ => None,
        }
    }
}

/// A JSON document of `serde_json`.
#[verifier::external_type_specification]
#[verifier::external_body]
pub struct ExOutsideJson(serde_json::Value);

/// What `serde_json` reads from a JSON text: the document, or its words on
/// why the text is not JSON.
pub uninterp spec fn json_read(text: Seq<char>) -> Result<JsonModel, Seq<char>>;

/// The compact JSON text of a document, as `serde_json` writes it.
pub uninterp spec fn json_text(v: JsonModel) -> Seq<char>;

/// The indented JSON text of a document, as `serde_json` writes it.
pub uninterp spec fn json_pretty_text(v: JsonModel) -> Seq<char>;

/// The same document as a `serde_json::Value`: each kind of value becomes
/// the kind of the same name, a number by parsing its numeral, which reads
/// as a number.
#[verifier::external_body]
pub(crate) fn to_outside(v: &JsonValue) -> serde_json::Value {
    match v {
        JsonValue::Null => serde_json::Value::Null,
        JsonValue::Bool(b) => serde_json::Value::Bool(*b),
        JsonValue::Number(n) => n.as_str().parse().unwrap_or(serde_json::Value::Null),
        JsonValue::Text(s) => serde_json::Value::String(s.clone()),
        JsonValue::Array(a) => serde_json::Value::Array(a.iter().map(to_outside).collect()),
        JsonValue::Object(m) => serde_json::Value::Object(
            m.entries.iter().map(|e| (e.0.clone(), to_outside(&e.1))).collect(),
        ),
    }
}

/// The same document as a value of this crate: each kind of value becomes
/// the kind of the same name, a number as the numeral that `serde_json`
/// writes for it, the members of an object in the order in which it holds them.
#[verifier::external_body]
fn from_outside(v: &serde_json::Value) -> JsonValue {
    match v {
        serde_json::Value::Null => JsonValue::Null,
        serde_json::Value::Bool(b) => JsonValue::Bool(*b),
        serde_json::Value::Number(n) => JsonValue::Number(JsonNumber { text: n.to_string() }),
        serde_json::Value::String(s) => JsonValue::Text(s.clone()),
        serde_json::Value::Array(a) => JsonValue::Array(a.iter().map(from_outside).collect()),
        serde_json::Value::Object(m) => JsonValue::Object(
            StrMap { entries: m.iter().map(|e| (e.0.clone(), from_outside(e.1))).collect() },
        ),
    }
}

/// Reads the text with `serde_json::from_str` as a `Value`.
#[verifier::external_body]
fn read_text(text: &str) -> (r: Result<JsonValue, String>)
    ensures
        match r {
            Ok(v) => json_read(text@) == Ok::<JsonModel, Seq<char>>(json_model(v)),
            Err(e) => json_read(text@) == Err::<JsonModel, Seq<char>>(e@),
        },
{
    match serde_json::from_str::<serde_json::Value>(text) {
        Ok(v) => Ok(from_outside(&v)),
        Err(e) => Err(e.to_string()),
    }
}

/// Writes the document as compact JSON text with `serde_json`'s `to_string`
/// for `Value`.
#[verifier::external_body]
pub(crate) fn compact_text(v: &JsonValue) -> (r: String)
    ensures
        r@ == json_text(json_model(*v)),
{
    to_outside(v).to_string()
}

/// Writes the document as indented JSON text with `serde_json::to_string_pretty`.
#[verifier::external_body]
fn pretty_text(v: &JsonValue) -> (r: String)
    ensures
        r@ == json_pretty_text(json_model(*v)),
{
    serde_json::to_string_pretty(&to_outside(v)).unwrap_or_default()
}

impl JsonValue {
    /// Reads a document from JSON text; the error says why the text is not JSON.
    pub fn from_text(text: &str) -> (r: Result<JsonValue, String>)
        ensures
            match r {
                Ok(v) => json_read(text@) == Ok::<JsonModel, Seq<char>>(json_model(v)),
                Err(e) => json_read(text@) == Err::<JsonModel, Seq<char>>(e@),
            },
    {
        read_text(text)
    }

    /// The document as compact JSON text.
    pub fn to_text(&self) -> (r: String)
        ensures
            r@ == json_text(json_model(*self)),
    {
        compact_text(self)
    }

    /// The document as indented JSON text.
    pub fn to_pretty_text(&self) -> (r: String)
        ensures
            r@ == json_pretty_text(json_model(*self)),
    {
        pretty_text(self)
    }
}

} // verus!
