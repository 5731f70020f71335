//! Members of JSON documents as plain values.

use crate::text::same;
use vstd::prelude::*;

verus! {

/// A value in a JSON document. Numbers other than unsigned integers, and what
/// lists and objects hold, are not told apart.
#[derive(Debug, PartialEq, Eq)]
pub enum JsonField {
    Null,
    Bool(bool),
    Unsigned(u64),
    OtherNumber,
    Text(String),
    List,
    Object,
}

/// What a value in a JSON document says.
pub enum FieldView {
    Null,
    Bool(bool),
    Unsigned(u64),
    OtherNumber,
    Text(Seq<char>),
    List,
    Object,
}

impl View for JsonField {
    type V = FieldView;

    open spec fn view(&self) -> FieldView {
        match self {
            JsonField::Null => FieldView::Null,
            JsonField::Bool(b) => FieldView::Bool(*b),
            JsonField::Unsigned(n) => FieldView::Unsigned(*n),
            JsonField::OtherNumber => FieldView::OtherNumber,
            JsonField::Text(s) => FieldView::Text(s@),
            JsonField::List => FieldView::List,
            JsonField::Object => FieldView::Object,
        }
    }
}

/// What an optional value says.
pub open spec fn optional_field(f: Option<JsonField>) -> Option<FieldView> {
    match f {
        Some(f) => Some(f@),
        None => None,
    }
}

/// The text of a value that is a text.
pub open spec fn text_of_field(f: Option<FieldView>) -> Option<Seq<char>> {
    match f {
        Some(FieldView::Text(s)) => Some(s),
        _ => None,
    }
}

/// The number of a value that is an unsigned integer.
pub open spec fn unsigned_of_field(f: Option<FieldView>) -> Option<u64> {
    match f {
        Some(FieldView::Unsigned(n)) => Some(n),
        _ => None,
    }
}

/// The value under `key` in a JSON text, or in the member `outer` of it: none
/// where the text is no JSON and where there is no such value.
pub uninterp spec fn json_member(
    text: Seq<char>,
    outer: Option<Seq<char>>,
    key: Seq<char>,
) -> Option<FieldView>;

/// `serde_json::from_str::<serde_json::Value>` and `serde_json::Value::get`: the
/// result is a function of the text and the keys alone.
#[verifier::external_body]
pub(crate) fn read_json_member(text: &str, outer: Option<&str>, key: &str) -> (r: Option<
    JsonField,
>)
    ensures
        optional_field(r) == json_member(
            text@,
            match outer {
                Some(o) => Some(o@),
                None => None,
            },
            key@,
        ),
{
    let document = serde_json::from_str::<serde_json::Value>(text).ok()?;
    let node = outer.map_or(Some(&document), |name| document.get(name))?;
    node.get(key).map(|value| match value {
        serde_json::Value::Null => JsonField::Null,
        serde_json::Value::Bool(b) => JsonField::Bool(*b),
        serde_json::Value::Number(n) => n.as_u64().map_or(JsonField::OtherNumber, JsonField::Unsigned),
        serde_json::Value::String(s) => JsonField::Text(s.clone()),
        serde_json::Value::Array(_) => JsonField::List,
        serde_json::Value::Object(_) => JsonField::Object,
    })
}

/// Is the value that text?
pub fn field_is(field: &Option<JsonField>, text: &str) -> (r: bool)
    ensures
        r == (text_of_field(optional_field(*field)) == Some(text@)),
{
    match field {
        Some(JsonField::Text(s)) => same(s, text),
        _ => false,
    }
}

/// The text of a value that is a text.
pub fn field_text(field: &Option<JsonField>) -> (r: Option<&str>)
    ensures
        r is Some == text_of_field(optional_field(*field)) is Some,
        r is Some ==> text_of_field(optional_field(*field)) == Some(r->0@),
{
    match field {
        Some(JsonField::Text(s)) => Some(s.as_str()),
        _ => None,
    }
}

/// The number of a value that is an unsigned integer.
pub fn field_unsigned(field: &Option<JsonField>) -> (r: Option<u64>)
    ensures
        r == unsigned_of_field(optional_field(*field)),
{
    match field {
        Some(JsonField::Unsigned(n)) => Some(*n),
        _ => None,
    }
}

} // verus!
