//! A document of keys and values, as it is read from TOML text.

use vstd::prelude::*;
use vstd::string::StringExecFns;
use crate::error::ModelError;
use crate::text::str_eq;

verus! {

/// A value of a document: a leaf or a collection of values.
#[derive(Debug)]
pub enum Node {
    String(String),
    Integer(i64),
    /// A number with a fraction. No field of a job definition takes one, so
    /// the number itself is not kept.
    Float,
    Boolean(bool),
    /// A date or a time. No field of a job definition takes one, so the
    /// date itself is not kept.
    Datetime,
    Array(Vec<Node>),
    /// Keys with their values.
    Table(Vec<(String, Node)>),
}

#[verifier::external_type_specification]
#[verifier::external_body]
pub struct ExTomlValue(toml::Value);

#[verifier::external_type_specification]
#[verifier::external_body]
pub struct ExTomlError(toml::de::Error);

/// What `toml::from_str` makes of a text that is read as a `toml::Value`:
/// the document that the text holds, or nothing where the text is not TOML.
pub uninterp spec fn toml_document(text: Seq<char>) -> Option<Node>;

/// Moves what a `toml::Value` holds into a [`Node`], variant by variant:
/// texts, whole numbers and truth values as they stand, the items of an
/// array in their order, the keys of a table with their values in the
/// order in which the table hands them out.
///
/// Trusted: nothing is stated of the result.
#[verifier::external_body]
fn from_toml(value: toml::Value) -> Node {
    match value {
        toml::Value::String(text) => Node::String(text),
        toml::Value::Integer(number) => Node::Integer(number),
        toml::Value::Float(_) => Node::Float,
        toml::Value::Boolean(truth) => Node::Boolean(truth),
        toml::Value::Datetime(_) => Node::Datetime,
        toml::Value::Array(items) => Node::Array(items.into_iter().map(from_toml).collect()),
        toml::Value::Table(table) => Node::Table(
            table.into_iter().map(|(key, item)| (key, from_toml(item))).collect(),
        ),
    }
}

/// Calls `toml::from_str`, which reads a text as TOML, for a `toml::Value`.
///
/// Trusted: the result depends on the text alone.
#[verifier::external_body]
fn read_toml(text: &str) -> (r: Result<Node, toml::de::Error>)
    ensures
        match r {
            Ok(document) => toml_document(text@) == Some(document),
            Err(_) => toml_document(text@) is None,
        },
{
    match toml::from_str::<toml::Value>(text) {
        Ok(value) => Ok(from_toml(value)),
        Err(e) => Err(e),
    }
}

/// Calls `to_string` on the error of `toml::from_str`, which words the
/// error for a person to read.
///
/// Trusted: nothing is stated of the result.
#[verifier::external_body]
fn toml_error_text(e: &toml::de::Error) -> String {
    e.to_string()
}

/// Reads a text as a TOML document. Where the text is not TOML, the error
/// says in words what is wrong with it.
pub fn parse_document(text: &str) -> (r: Result<Node, ModelError>)
    ensures
        match toml_document(text@) {
            Some(document) => r == Ok::<Node, ModelError>(document),
            None => r matches Err(ModelError::DeserializationError(_)),
        },
{
    match read_toml(text) {
        Ok(document) => Ok(document),
        Err(e) => Err(ModelError::DeserializationError(toml_error_text(&e))),
    }
}

/// The value that a table holds under a key: that of the first entry with
/// that key.
pub open spec fn lookup(table: Seq<(String, Node)>, key: Seq<char>) -> Option<Node>
    decreases table.len(),
{
    if table.len() == 0 {
        None
    } else if table[0].0@ == key {
        Some(table[0].1)
    } else {
        lookup(table.drop_first(), key)
    }
}

/// The value that a table holds under a key.
pub fn find<'a>(table: &'a Vec<(String, Node)>, key: &str) -> (r: Option<&'a Node>)
    ensures
        match r {
            Some(value) => lookup(table@, key@) == Some(*value),
            None => lookup(table@, key@) is None,
        },
{
    let mut i: usize = 0;
    proof {
        assert(table@.skip(0) =~= table@);
    }
    while i < table.len()
        invariant
            i <= table@.len(),
            lookup(table@, key@) == lookup(table@.skip(i as int), key@),
        decreases table@.len() - i,
    {
        proof {
            assert(table@.skip(i as int).drop_first() =~= table@.skip(i + 1));
            assert(table@.skip(i as int)[0] == table@[i as int]);
        }
        if str_eq(table[i].0.as_str(), key) {
            return Some(&table[i].1);
        }
        i += 1;
    }
    None
}

/// The message of the error for a key that a table must not hold.
pub open spec fn unknown_field_message(key: Seq<char>) -> Seq<char> {
    "unknown field `"@ + key + "`"@
}

/// The message of the error for a key that a table must hold.
pub open spec fn missing_field_message(key: Seq<char>) -> Seq<char> {
    "missing field `"@ + key + "`"@
}

/// The message of the error for a key under which a table holds a value
/// of the wrong kind, or one that is out of range.
pub open spec fn invalid_field_message(key: Seq<char>) -> Seq<char> {
    "invalid value of field `"@ + key + "`"@
}

/// The error for a key that a table must not hold.
pub fn unknown_field(key: &str) -> (e: ModelError)
    ensures
        e matches ModelError::DeserializationError(text) && text@ == unknown_field_message(key@),
{
    let mut text = "unknown field `".to_owned();
    text.append(key);
    text.append("`");
    ModelError::DeserializationError(text)
}

/// The error for a key that a table must hold.
pub fn missing_field(key: &str) -> (e: ModelError)
    ensures
        e matches ModelError::DeserializationError(text) && text@ == missing_field_message(key@),
{
    let mut text = "missing field `".to_owned();
    text.append(key);
    text.append("`");
    ModelError::DeserializationError(text)
}

/// The error for a key under which a table holds a value of the wrong
/// kind, or one that is out of range.
pub fn invalid_field(key: &str) -> (e: ModelError)
    ensures
        e matches ModelError::DeserializationError(text) && text@ == invalid_field_message(key@),
{
    let mut text = "invalid value of field `".to_owned();
    text.append(key);
    text.append("`");
    ModelError::DeserializationError(text)
}

/// The first key of a table that is not among the known ones.
pub open spec fn first_unknown(table: Seq<(String, Node)>, known: Seq<Seq<char>>) -> Option<
    Seq<char>,
>
    decreases table.len(),
{
    if table.len() == 0 {
        None
    } else if !known.contains(table[0].0@) {
        Some(table[0].0@)
    } else {
        first_unknown(table.drop_first(), known)
    }
}

/// The texts of some keys.
pub open spec fn keys_view(keys: Seq<&'static str>) -> Seq<Seq<char>> {
    keys.map_values(|key: &'static str| key@)
}

/// Checks that a table holds known keys only. The error names the first
/// key that is not known.
pub fn check_known(table: &Vec<(String, Node)>, known: &Vec<&'static str>) -> (r: Result<
    (),
    ModelError,
>)
    ensures
        match first_unknown(table@, keys_view(known@)) {
            None => r is Ok,
            Some(key) => r matches Err(ModelError::DeserializationError(text)) && text@
                == unknown_field_message(key),
        },
{
    let ghost keys = keys_view(known@);
    let mut i: usize = 0;
    proof {
        assert(table@.skip(0) =~= table@);
    }
    while i < table.len()
        invariant
            i <= table@.len(),
            keys == keys_view(known@),
            first_unknown(table@, keys) == first_unknown(table@.skip(i as int), keys),
        decreases table@.len() - i,
    {
        proof {
            assert(table@.skip(i as int).drop_first() =~= table@.skip(i + 1));
            assert(table@.skip(i as int)[0] == table@[i as int]);
        }
        let key = table[i].0.as_str();
        let mut found = false;
        let mut k: usize = 0;
        while k < known.len() && !found
            invariant
                k <= known@.len(),
                keys == keys_view(known@),
                found ==> keys.contains(key@),
                !found ==> forall|j: int| 0 <= j < k ==> keys[j] != key@,
            decreases known@.len() - k + if found { 0int } else { 1int },
        {
            if str_eq(known[k], key) {
                found = true;
                proof {
                    assert(keys[k as int] == key@);
                }
            } else {
                k += 1;
            }
        }
        if !found {
            return Err(unknown_field(key));
        }
        i += 1;
    }
    Ok(())
}

} // verus!
