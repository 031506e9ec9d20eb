//! Documents as trees of plain values, and reading them from JSON and TOML text.
use crate::text;
use serde_json::Value;
use vstd::prelude::*;

verus! {

/// A number of a document.
#[derive(Clone, Copy, Debug, PartialEq, Eq, Structural)]
pub enum Number {
    PosInt(u64),
    /// Always below zero.
    NegInt(i64),
    /// The bits of a finite number in the 64 bit floating-point format.
    Float(u64),
}

/// A document.
#[derive(Debug)]
pub enum Json {
    Null,
    Bool(bool),
    Number(Number),
    Text(String),
    Array(Vec<Json>),
    Object(Vec<(String, Json)>),
}

/// `serde_json::Value`, as an opaque type.
#[verifier::external_type_specification]
#[verifier::external_body]
pub struct ExJsonValue(serde_json::Value);

/// What a `serde_json::Value` holds.
pub uninterp spec fn json_contents(value: Value) -> Json;

/// What a JSON text reads as; nothing where it is not JSON.
pub uninterp spec fn json_document(bytes: Seq<u8>) -> Option<Json>;

/// What a TOML text reads as; nothing where it is not TOML.
pub uninterp spec fn toml_document(text: Seq<char>) -> Option<Json>;

/// `serde_json::from_slice` reads a JSON text as a value, or fails where it is not one. Which tree a
/// text stands for is the format's business and only given a name here.
#[verifier::external_body]
fn read_json(bytes: &[u8]) -> (value: Option<Value>)
    ensures
        match value {
            Some(v) => json_document(bytes@) == Some(json_contents(v)),
            None => json_document(bytes@) is None,
        },
{
    serde_json::from_slice(bytes).ok()
}

/// `toml::from_str` reads a TOML text as a value, or fails where it is not one. Which tree a text
/// stands for is the format's business and only given a name here.
#[verifier::external_body]
fn read_toml(text: &str) -> (value: Option<Value>)
    ensures
        match value {
            Some(v) => toml_document(text@) == Some(json_contents(v)),
            None => toml_document(text@) is None,
        },
{
    toml::from_str(text).ok()
}

/// Takes a `serde_json::Value` apart, one for one. Its numbers tell whole numbers from others by
/// `Number::as_u64` and `Number::as_i64`.
#[verifier::external_body]
fn tree(value: Value) -> (j: Json)
    ensures
        j == json_contents(value),
{
    match value {
        Value::Null => Json::Null,
        Value::Bool(b) => Json::Bool(b),
        Value::Number(n) => Json::Number(match (n.as_u64(), n.as_i64()) {
            (Some(u), _) => Number::PosInt(u),
            (None, Some(i)) => Number::NegInt(i),
            (None, None) => Number::Float(n.as_f64().map_or(0, |x| x.to_bits())),
        }),
        Value::String(s) => Json::Text(s),
        Value::Array(a) => Json::Array(a.into_iter().map(tree).collect()),
        Value::Object(o) => Json::Object(o.into_iter().map(|(k, v)| (k, tree(v))).collect()),
    }
}

/// Reads a JSON text.
pub fn parse_json(bytes: &[u8]) -> (j: Option<Json>)
    ensures
        j == json_document(bytes@),
{
    match read_json(bytes) {
        Some(v) => Some(tree(v)),
        None => None,
    }
}

/// Reads a TOML text.
pub fn parse_toml(text: &str) -> (j: Option<Json>)
    ensures
        j == toml_document(text@),
{
    match read_toml(text) {
        Some(v) => Some(tree(v)),
        None => None,
    }
}

/// The first field with the given name.
pub open spec fn lookup(fields: Seq<(String, Json)>, name: Seq<char>) -> Option<Json>
    decreases fields.len(),
{
    if fields.len() == 0 {
        None
    } else if fields[0].0@ == name {
        Some(fields[0].1)
    } else {
        lookup(fields.skip(1), name)
    }
}

impl Json {
    /// The field of an object.
    pub open spec fn field(self, name: Seq<char>) -> Option<Json> {
        match self {
            Json::Object(fields) => lookup(fields@, name),
            _ => None,
        }
    }

    pub fn get(&self, name: &str) -> (j: Option<&Json>)
        ensures
            match j {
                Some(v) => self.field(name@) == Some(*v),
                None => self.field(name@) is None,
            },
    {
        match self {
            Json::Object(fields) => {
                let mut i: usize = 0;
                assert(fields@.skip(0) =~= fields@);
                while i < fields.len()
                    invariant
                        i <= fields@.len(),
                        lookup(fields@, name@) == lookup(fields@.skip(i as int), name@),
                        self.field(name@) == lookup(fields@, name@),
                    decreases fields@.len() - i,
                {
                    if text::same(fields[i].0.as_str(), name) {
                        return Some(&fields[i].1);
                    }
                    assert(fields@.skip(i as int).skip(1) =~= fields@.skip(i + 1));
                    i = i + 1;
                }
                None
            },
            _ => None,
        }
    }

    pub open spec fn text(self) -> Option<Seq<char>> {
        match self {
            Json::Text(s) => Some(s@),
            _ => None,
        }
    }

    pub open spec fn whole(self) -> Option<u64> {
        match self {
            Json::Number(Number::PosInt(n)) => Some(n),
            _ => None,
        }
    }

    pub open spec fn truth(self) -> Option<bool> {
        match self {
            Json::Bool(b) => Some(b),
            _ => None,
        }
    }

    pub fn as_text(&self) -> (s: Option<&String>)
        ensures
            match s {
                Some(t) => self.text() == Some(t@),
                None => self.text() is None,
            },
    {
        match self {
            Json::Text(s) => Some(s),
            _ => None,
        }
    }

    pub fn as_whole(&self) -> (n: Option<u64>)
        ensures
            n == self.whole(),
    {
        match self {
            Json::Number(Number::PosInt(n)) => Some(*n),
            _ => None,
        }
    }

    pub fn as_truth(&self) -> (b: Option<bool>)
        ensures
            b == self.truth(),
    {
        match self {
            Json::Bool(b) => Some(*b),
            _ => None,
        }
    }
}

} // verus!
