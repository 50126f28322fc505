use vstd::prelude::*;
use vstd::utf8::{decode_utf8, valid_utf8};

verus! {

/// What a JSON object holds under one key, as far as the nodes look at it:
/// nothing, a string, a number that fits in `u64`, or anything else.
pub enum Field {
    Absent,
    Text(String),
    Unsigned(u64),
    Other,
}

/// The mathematical value of a [`Field`].
pub enum FieldModel {
    Absent,
    Text(Seq<char>),
    Unsigned(u64),
    Other,
}

impl View for Field {
    type V = FieldModel;

    open spec fn view(&self) -> FieldModel {
        match self {
            Field::Absent => FieldModel::Absent,
            Field::Text(s) => FieldModel::Text(s@),
            Field::Unsigned(n) => FieldModel::Unsigned(*n),
            Field::Other => FieldModel::Other,
        }
    }
}

/// Whether `serde_json::from_str::<serde_json::Value>` accepts the text.
pub uninterp spec fn json_text_parses(text: Seq<char>) -> bool;

/// What the JSON document `text` holds under `key`, as serde_json's
/// `Value::get` followed by `as_str` / `as_u64` sees it.
pub uninterp spec fn json_field_of(text: Seq<char>, key: Seq<char>) -> FieldModel;

/// The compact text that serde_json prints for the document `text`
/// (objects with their keys in sorted order), when `text` parses.
pub uninterp spec fn json_canonical_of(text: Seq<char>) -> Seq<char>;

/// What `String::from_utf8_lossy` makes of `bytes`.
pub uninterp spec fn utf8_lossy_of(bytes: Seq<u8>) -> Seq<char>;

/// Parses `text` with `serde_json::from_str::<serde_json::Value>` and
/// reads the entry under `key` with `Value::get`; a string is returned as
/// text, a number as `u64` where `Number::as_u64` gives one.
/// Claimed: the result is `None` exactly when serde_json refuses the text,
/// and otherwise it is the named field of that text.
#[verifier::external_body]
pub(crate) fn json_field(text: &str, key: &str) -> (res: Option<Field>)
    ensures
        res is Some <==> json_text_parses(text@),
        res matches Some(f) ==> f@ == json_field_of(text@, key@),
{
    match serde_json::from_str::<serde_json::Value>(text) {
        Err(_) => None,
        Ok(value) => Some(match value.get(key) {
            None => Field::Absent,
            Some(serde_json::Value::String(s)) => Field::Text(s.clone()),
            Some(serde_json::Value::Number(n)) => match n.as_u64() {
                Some(u) => Field::Unsigned(u),
                None => Field::Other,
            },
            Some(_) => Field::Other,
        }),
    }
}

/// Parses `text` with `serde_json::from_str::<serde_json::Value>` and prints
/// the value back with its `Display` impl (serde_json's `to_string`).
/// Claimed: `None` exactly when serde_json refuses the text, and otherwise
/// the printed text named by `json_canonical_of`.
#[verifier::external_body]
pub(crate) fn canonical_json(text: &str) -> (res: Option<String>)
    ensures
        res is Some <==> json_text_parses(text@),
        res matches Some(s) ==> s@ == json_canonical_of(text@),
{
    match serde_json::from_str::<serde_json::Value>(text) {
        Err(_) => None,
        Ok(value) => Some(value.to_string()),
    }
}

/// Decodes `bytes` with `String::from_utf8_lossy`.
/// Claimed: the named result; on valid UTF-8 it is the decoded text, as
/// the documentation of `from_utf8_lossy` says. What replaces invalid
/// sequences is left to the name.
#[verifier::external_body]
pub(crate) fn utf8_lossy(bytes: &[u8]) -> (res: String)
    ensures
        res@ == utf8_lossy_of(bytes@),
        valid_utf8(bytes@) ==> res@ == decode_utf8(bytes@),
{
    String::from_utf8_lossy(bytes).into_owned()
}

} // verus!
