//! JSON documents as the adapters read them, and the two places where the
//! JSON library is called: reading a text into a document, and writing a
//! string as a JSON string literal.

use crate::text::same_text;
use vstd::prelude::*;

verus! {

/// A JSON document. Numbers are kept only where they are whole numbers of at
/// most 64 bits without sign, which is all that a depth frame carries as a
/// number; texts and lists are kept in full.
#[derive(Debug, PartialEq, Eq)]
pub enum Json {
    Null,
    Bool(bool),
    /// A whole number from 0 to `u64::MAX`.
    Unsigned(u64),
    /// A number of any other kind: negative, or with a fraction or exponent.
    Number,
    Text(String),
    List(Vec<Json>),
    /// The members of a mapping, each name once.
    Object(Vec<(String, Json)>),
}

/// The value of the first of `members` that is named `key`.
pub open spec fn member(members: Seq<(String, Json)>, key: Seq<char>) -> Option<Json>
    decreases members.len(),
{
    if members.len() == 0 {
        None
    } else if members[0].0@ == key {
        Some(members[0].1)
    } else {
        member(members.skip(1), key)
    }
}

impl Json {
    /// The member named `key` of a mapping; none for a document that is not
    /// a mapping or has no such member.
    pub open spec fn field(&self, key: Seq<char>) -> Option<Json> {
        match self {
            Json::Object(members) => member(members@, key),
            _ => None,
        }
    }

    /// The member named `key`, if the document is a mapping that has one.
    pub fn get(&self, key: &str) -> (found: Option<&Json>)
        ensures
            match found {
                Some(value) => self.field(key@) == Some(*value),
                None => self.field(key@) is None,
            },
    {
        match self {
            Json::Object(members) => {
                let mut i: usize = 0;
                assert(members@.skip(0) =~= members@);
                while i < members.len()
                    invariant
                        i <= members.len(),
                        self.field(key@) == member(members@, key@),
                        member(members@, key@) == member(members@.skip(i as int), key@),
                    decreases members.len() - i,
                {
                    if same_text(members[i].0.as_str(), key) {
                        assert(members@.skip(i as int)[0] == members@[i as int]);
                        return Some(&members[i].1);
                    }
                    assert(members@.skip(i as int)[0] == members@[i as int]);
                    assert(members@.skip(i as int).skip(1) =~= members@.skip(i + 1));
                    i += 1;
                }
                None
            },
            _ => None,
        }
    }

    /// Whether the document is a mapping.
    pub fn is_object(&self) -> (r: bool)
        ensures
            r == (self is Object),
    {
        match self {
            Json::Object(_) => true,
            _ => false,
        }
    }

    /// The text of a document that is a text.
    pub fn as_str(&self) -> (r: Option<&str>)
        ensures
            match r {
                Some(text) => self matches Json::Text(t) && t@ == text@,
                None => !(self is Text),
            },
    {
        match self {
            Json::Text(text) => Some(text.as_str()),
            _ => None,
        }
    }

    /// The number of a document that is a whole number of at most 64 bits.
    pub fn as_u64(&self) -> (r: Option<u64>)
        ensures
            match r {
                Some(n) => *self == Json::Unsigned(n),
                None => !(self is Unsigned),
            },
    {
        match self {
            Json::Unsigned(n) => Some(*n),
            _ => None,
        }
    }

    /// The items of a document that is a list.
    pub fn as_array(&self) -> (r: Option<&Vec<Json>>)
        ensures
            match r {
                Some(items) => *self == Json::List(*items),
                None => !(self is List),
            },
    {
        match self {
            Json::List(items) => Some(items),
            _ => None,
        }
    }
}

/// `serde_json::Value`, the JSON library's own document tree.
#[verifier::external_type_specification]
#[verifier::external_body]
pub struct ExValue(serde_json::Value);

/// `serde_json::Error`, what the JSON library reports for a text it cannot
/// read.
#[verifier::external_type_specification]
#[verifier::external_body]
pub struct ExError(serde_json::Error);

/// The document that the JSON library reads from a text, where it reads one.
pub uninterp spec fn json_document(text: Seq<char>) -> Option<Json>;

/// A tree of the JSON library as a document.
pub uninterp spec fn json_of_value(value: serde_json::Value) -> Json;

/// The JSON string literal that the JSON library writes for a text: the text
/// between double quotes, with the characters escaped that JSON asks for.
pub uninterp spec fn json_string_literal(text: Seq<char>) -> Seq<char>;

/// `serde_json::from_str` at the type `serde_json::Value`: the tree of the
/// document that the text holds, or the library's error for a text that is
/// not one JSON document. Which text gives which tree is the library's
/// business; the contract only gives the outcome its name.
#[verifier::external_body]
fn value_from_text(text: &str) -> (r: Result<serde_json::Value, serde_json::Error>)
    ensures
        match r {
            Ok(value) => json_document(text@) == Some(json_of_value(value)),
            Err(_) => json_document(text@) is None,
        },
{
    serde_json::from_str::<serde_json::Value>(text)
}

/// Walks a `serde_json::Value` and writes it down as a `Json`, variant by
/// variant: `as_u64` decides between `Unsigned` and `Number`, and the members
/// of a mapping come in the order in which the library's map hands them out.
#[verifier::external_body]
fn document_of_value(value: &serde_json::Value) -> (document: Json)
    ensures
        document == json_of_value(*value),
{
    match value {
        serde_json::Value::Null => Json::Null,
        serde_json::Value::Bool(flag) => Json::Bool(*flag),
        serde_json::Value::Number(number) => number.as_u64().map_or(Json::Number, Json::Unsigned),
        serde_json::Value::String(text) => Json::Text(text.clone()),
        serde_json::Value::Array(items) => Json::List(items.iter().map(document_of_value).collect()),
        serde_json::Value::Object(members) => Json::Object(
            members.iter().map(|entry| (entry.0.clone(), document_of_value(entry.1))).collect(),
        ),
    }
}

/// `serde_json::Value::to_string` on a string value: the text as a JSON
/// string literal.
#[verifier::external_body]
pub(crate) fn quote_text(text: &str) -> (literal: String)
    ensures
        literal@ == json_string_literal(text@),
{
    serde_json::Value::from(text).to_string()
}

/// Reads a text as one JSON document.
pub fn parse_document(text: &str) -> (document: Option<Json>)
    ensures
        document == json_document(text@),
{
    match value_from_text(text) {
        Ok(value) => Some(document_of_value(&value)),
        Err(_) => None,
    }
}

} // verus!
