//! JSON documents as plain data, read from text by `serde_json`.

use vstd::prelude::*;
use vstd::string::StringExecFns;

verus! {

/// One `key: value` pair of an object.
#[derive(Debug, PartialEq, Eq)]
pub struct Member {
    pub key: String,
    pub value: Json,
}

/// A JSON document. A number is kept only as far as it is a whole number
/// that fits `i64`; every other number is `OtherNumber`.
#[derive(Debug, PartialEq, Eq)]
pub enum Json {
    Null,
    Bool(bool),
    Int(i64),
    OtherNumber,
    Text(String),
    Array(Vec<Json>),
    Object(Vec<Member>),
}

/// The mathematical value of a `Member`.
pub struct Entry {
    pub key: Seq<char>,
    pub value: JsonValue,
}

/// The mathematical value of a `Json`.
pub enum JsonValue {
    Null,
    Bool(bool),
    Int(int),
    OtherNumber,
    Text(Seq<char>),
    Array(Seq<JsonValue>),
    Object(Seq<Entry>),
}

impl View for Json {
    type V = JsonValue;

    open spec fn view(&self) -> JsonValue
        decreases self,
    {
        match self {
            Json::Null => JsonValue::Null,
            Json::Bool(b) => JsonValue::Bool(*b),
            Json::Int(n) => JsonValue::Int(*n as int),
            Json::OtherNumber => JsonValue::OtherNumber,
            Json::Text(s) => JsonValue::Text(s@),
            Json::Array(items) => JsonValue::Array(
                Seq::new(
                    items@.len(),
                    |i: int|
                        if 0 <= i < items@.len() {
                            items@[i]@
                        } else {
                            JsonValue::Null
                        },
                ),
            ),
            Json::Object(members) => JsonValue::Object(
                Seq::new(
                    members@.len(),
                    |i: int|
                        if 0 <= i < members@.len() {
                            Entry { key: members@[i].key@, value: members@[i].value@ }
                        } else {
                            Entry { key: Seq::empty(), value: JsonValue::Null }
                        },
                ),
            ),
        }
    }
}

impl View for Member {
    type V = Entry;

    open spec fn view(&self) -> Entry {
        Entry { key: self.key@, value: self.value@ }
    }
}

/// The values of a sequence of documents.
pub open spec fn values_of(docs: Seq<Json>) -> Seq<JsonValue> {
    docs.map_values(|d: Json| d@)
}

/// `serde_json::Value`, of which nothing is known here: it is copied into
/// a `Json` before anything reads it.
#[verifier::external_type_specification]
#[verifier::external_body]
pub struct ExValue(serde_json::Value);

/// `serde_json::Error`, of which nothing is known here.
#[verifier::external_type_specification]
#[verifier::external_body]
pub struct ExError(serde_json::Error);

/// The document that `serde_json` reads from `text`, or `None` where it
/// rejects the text. What it is for a given text is not stated here.
pub uninterp spec fn document_of(text: Seq<u8>) -> Option<JsonValue>;

/// Copies a `serde_json::Value` into a `Json`, variant by variant. A
/// number becomes `Int` where `Number::as_i64` gives its value; array
/// elements and object members keep the order in which `serde_json` walks
/// them. Not verified, and nothing is stated of the result.
#[verifier::external_body]
fn lift(value: &serde_json::Value) -> Json {
    match value {
        serde_json::Value::Null => Json::Null,
        serde_json::Value::Bool(b) => Json::Bool(*b),
        serde_json::Value::Number(n) => match n.as_i64() {
            Some(i) => Json::Int(i),
            None => Json::OtherNumber,
        },
        serde_json::Value::String(s) => Json::Text(s.clone()),
        serde_json::Value::Array(items) => Json::Array(items.iter().map(lift).collect()),
        serde_json::Value::Object(map) => Json::Object(
            map.iter().map(|(k, v)| Member { key: k.clone(), value: lift(v) }).collect(),
        ),
    }
}

/// `serde_json::from_slice` on `text`, read as a `serde_json::Value` and
/// copied by `lift`. Believed without proof: the same text always gives the
/// same outcome, which `document_of(text)` names; an error comes exactly
/// where that is `None`.
#[verifier::external_body]
fn read_value(text: &[u8]) -> (r: Result<Json, serde_json::Error>)
    ensures
        match r {
            Ok(doc) => document_of(text@) == Some(doc@),
            Err(_) => document_of(text@) is None,
        },
{
    match serde_json::from_slice::<serde_json::Value>(text) {
        Ok(value) => Ok(lift(&value)),
        Err(e) => Err(e),
    }
}

/// Reads a JSON document from `text`.
pub fn parse(text: &[u8]) -> (r: Option<Json>)
    ensures
        match r {
            Some(doc) => document_of(text@) == Some(doc@),
            None => document_of(text@) is None,
        },
{
    match read_value(text) {
        Ok(doc) => Some(doc),
        Err(_) => None,
    }
}

/// The value of the first of `entries` whose key is `key`.
pub open spec fn found(entries: Seq<Entry>, key: Seq<char>) -> Option<JsonValue>
    decreases entries.len(),
{
    if entries.len() == 0 {
        None
    } else if entries[0].key == key {
        Some(entries[0].value)
    } else {
        found(entries.drop_first(), key)
    }
}

impl JsonValue {
    /// The entries of an object, in order; `None` for anything else.
    pub open spec fn entries(self) -> Option<Seq<Entry>> {
        match self {
            JsonValue::Object(entries) => Some(entries),
            _ => None,
        }
    }

    /// The value under `key` of an object; `None` where there is none or
    /// this is no object.
    pub open spec fn member(self, key: Seq<char>) -> Option<JsonValue> {
        match self {
            JsonValue::Object(entries) => found(entries, key),
            _ => None,
        }
    }

    /// Element `index` of an array; `None` where there is none or this is no
    /// array.
    pub open spec fn element(self, index: int) -> Option<JsonValue> {
        match self {
            JsonValue::Array(items) => if 0 <= index < items.len() {
                Some(items[index])
            } else {
                None
            },
            _ => None,
        }
    }

    /// The characters of a string; `None` for anything else.
    pub open spec fn text(self) -> Option<Seq<char>> {
        match self {
            JsonValue::Text(s) => Some(s),
            _ => None,
        }
    }

    /// The value of a whole number; `None` for anything else.
    pub open spec fn whole(self) -> Option<int> {
        match self {
            JsonValue::Int(n) => Some(n),
            _ => None,
        }
    }
}

/// The values of a sequence of members.
pub open spec fn entries_of(members: Seq<Member>) -> Seq<Entry> {
    members.map_values(|m: Member| m@)
}

impl Json {
    /// The members of an object, in order.
    pub fn as_members(&self) -> (r: Option<&Vec<Member>>)
        ensures
            match r {
                Some(members) => self@.entries() == Some(entries_of(members@)),
                None => self@.entries() is None,
            },
    {
        match self {
            Json::Object(members) => {
                assert(self@.entries()->0 =~= entries_of(members@));
                Some(members)
            },
            _ => None,
        }
    }

    /// The value under `key` of an object.
    pub fn get(&self, key: &str) -> (r: Option<&Json>)
        ensures
            match r {
                Some(value) => self@.member(key@) == Some(value@),
                None => self@.member(key@) is None,
            },
    {
        match self {
            Json::Object(members) => {
                let wanted = String::from_str(key);
                let ghost entries = entries_of(members@);
                assert(self@.entries()->0 =~= entries);
                let mut i: usize = 0;
                assert(entries.skip(0) =~= entries);
                while i < members.len()
                    invariant
                        i <= members.len(),
                        wanted@ == key@,
                        entries == entries_of(members@),
                        self@.member(key@) == found(entries.skip(i as int), key@),
                    decreases members.len() - i,
                {
                    let ghost rest = entries.skip(i as int);
                    assert(rest[0] == members[i as int]@);
                    assert(rest.drop_first() =~= entries.skip(i + 1));
                    if members[i].key == wanted {
                        return Some(&members[i].value);
                    }
                    i += 1;
                }
                None
            },
            _ => None,
        }
    }

    /// Element `index` of an array.
    pub fn at(&self, index: usize) -> (r: Option<&Json>)
        ensures
            match r {
                Some(value) => self@.element(index as int) == Some(value@),
                None => self@.element(index as int) is None,
            },
    {
        match self {
            Json::Array(items) => if index < items.len() {
                Some(&items[index])
            } else {
                None
            },
            _ => None,
        }
    }

    /// The characters of a string.
    pub fn as_text(&self) -> (r: Option<&String>)
        ensures
            match r {
                Some(s) => self@.text() == Some(s@),
                None => self@.text() is None,
            },
    {
        match self {
            Json::Text(s) => Some(s),
            _ => None,
        }
    }

    /// The value of a whole number.
    pub fn as_whole(&self) -> (r: Option<i64>)
        ensures
            match r {
                Some(n) => self@.whole() == Some(n as int),
                None => self@.whole() is None,
            },
    {
        match self {
            Json::Int(n) => Some(*n),
            _ => None,
        }
    }
}

} // verus!
