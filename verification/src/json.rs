//! JSON texts, written and read by `serde_json`.

use vstd::prelude::*;

verus! {

/// Outside type: a JSON value of `serde_json`.
#[verifier::external_type_specification]
#[verifier::external_body]
pub struct ExJsonValue(serde_json::Value);

/// A value of a member of a JSON object.
pub enum JsonField {
    Text(String),
    Number(u64),
    Flag(bool),
    /// A value that was read from another document.
    Value(serde_json::Value),
}

/// What a field says.
pub enum JsonFieldView {
    Text(Seq<char>),
    Number(u64),
    Flag(bool),
    Value(serde_json::Value),
}

impl View for JsonField {
    type V = JsonFieldView;

    open spec fn view(&self) -> JsonFieldView {
        match self {
            JsonField::Text(t) => JsonFieldView::Text(t@),
            JsonField::Number(n) => JsonFieldView::Number(*n),
            JsonField::Flag(b) => JsonFieldView::Flag(*b),
            JsonField::Value(v) => JsonFieldView::Value(*v),
        }
    }
}

/// The names and values of members.
pub open spec fn member_views(v: Seq<(String, JsonField)>) -> Seq<(Seq<char>, JsonFieldView)> {
    v.map_values(|p: (String, JsonField)| (p.0@, p.1@))
}

/// Whether every value of another document among the members is one that was read there.
pub open spec fn values_were_read(members: Seq<(Seq<char>, JsonFieldView)>) -> bool {
    forall|i: int|
        0 <= i < members.len() ==> ((#[trigger] members[i]).1 matches JsonFieldView::Value(v)
            ==> was_read(v))
}

/// Whether a value was read from a document.
pub open spec fn was_read(v: serde_json::Value) -> bool {
    exists|text: Seq<char>, key: Seq<char>| v == #[trigger] json_member(text, key)
}

/// A JSON document with one member, whose value is the JSON text `value`.
pub open spec fn one_member(key: Seq<char>, value: Seq<char>) -> Seq<char> {
    "{\""@ + key + "\": "@ + value + "}"@
}

/// Whether an object has under `key` what the document `text` has under `from`: the last member of
/// that name has it.
pub open spec fn echoes(
    members: Seq<(Seq<char>, JsonFieldView)>,
    key: Seq<char>,
    text: Seq<char>,
    from: Seq<char>,
) -> bool {
    exists|i: int|
        0 <= i < members.len() && #[trigger] members[i] == (
            key,
            JsonFieldView::Value(json_member(text, from)),
        ) && (forall|j: int| i < j < members.len() ==> (#[trigger] members[j]).0 != key)
}

/// Whether an object has the text `value` under `key`: the last member of that name has it.
pub open spec fn says(
    members: Seq<(Seq<char>, JsonFieldView)>,
    key: Seq<char>,
    value: Seq<char>,
) -> bool {
    exists|i: int|
        0 <= i < members.len() && #[trigger] members[i] == (key, JsonFieldView::Text(value)) && (
        forall|j: int| i < j < members.len() ==> (#[trigger] members[j]).0 != key)
}

/// The text that a JSON document has under `key`: `None` where the text is no JSON document, is
/// no object, or has no text there.
pub uninterp spec fn json_text_member(text: Seq<char>, key: Seq<char>) -> Option<Seq<char>>;

/// Reads a text from a JSON document with `serde_json::from_str`, `Value::get` and
/// `Value::as_str`. The result depends on the document and the key and nothing else; which
/// documents are accepted is not stated.
#[verifier::external_body]
pub(crate) fn text_member(text: &str, key: &str) -> (r: Option<String>)
    ensures
        match (r, json_text_member(text@, key@)) {
            (Some(a), Some(b)) => a@ == b,
            (None, None) => true,
            _ => false,
        },
{
    let value: serde_json::Value = serde_json::from_str(text).ok()?;
    value.get(key).and_then(|v| v.as_str()).map(String::from)
}

/// The value that a JSON document has under `key`; null where the text is no JSON document, is no
/// object, or has nothing there.
pub uninterp spec fn json_member(text: Seq<char>, key: Seq<char>) -> serde_json::Value;

/// Takes a value from a JSON document with `serde_json::from_str` and `Value`'s indexing. The
/// value depends on the document and the key and nothing else.
#[verifier::external_body]
pub(crate) fn value_member(text: &str, key: &str) -> (r: serde_json::Value)
    ensures
        r == json_member(text@, key@),
{
    serde_json::from_str::<serde_json::Value>(text).map(|v| v[key].clone()).unwrap_or_default()
}

/// The text that `serde_json` writes for a string.
pub uninterp spec fn json_string_text(s: Seq<char>) -> Seq<char>;

/// The characters that JSON escapes in a string.
pub open spec fn escaped(c: char) -> bool {
    c == '"' || c == '\\' || c < ' '
}

/// Writes a string with `serde_json::to_string`: the text between quotes, where no character has
/// to be escaped. A reader finds the string under the key that the text is put under. How a
/// character is escaped is not stated. A string always has a JSON form.
#[verifier::external_body]
pub(crate) fn json_string(s: &str) -> (r: String)
    ensures
        r@ == json_string_text(s@),
        (forall|i: int| 0 <= i < s@.len() ==> !escaped(#[trigger] s@[i])) ==> r@ == seq!['"'] + s@
            + seq!['"'],
        forall|key: Seq<char>|
            (forall|i: int| 0 <= i < key.len() ==> !escaped(#[trigger] key[i]))
                ==> json_text_member(#[trigger] one_member(key, r@), key) == Some(s@),
{
    serde_json::to_string(s).unwrap_or_default()
}

/// The text that `serde_json` writes for an object with these members.
pub uninterp spec fn json_object_text(members: Seq<(Seq<char>, JsonFieldView)>) -> Seq<char>;

/// Writes an object with `serde_json::Value`'s `Display`. The text depends on the members and
/// nothing else, and a reader finds in it each text that was written, as a text or as a value of
/// another document. How it orders and escapes the members is not stated, nor what a reader finds
/// of a number: one with a fraction may be read with other last digits. A value of another
/// document has to have been read there: one that was built may be nested deeper than a reader
/// follows.
#[verifier::external_body]
pub(crate) fn json_object(members: &Vec<(String, JsonField)>) -> (r: String)
    requires
        values_were_read(member_views(members@)),
    ensures
        r@ == json_object_text(member_views(members@)),
        forall|key: Seq<char>, value: Seq<char>| #[trigger]
            says(member_views(members@), key, value) ==> json_text_member(r@, key) == Some(value),
        forall|key: Seq<char>, text: Seq<char>, from: Seq<char>|
            (#[trigger] echoes(member_views(members@), key, text, from)) && json_text_member(
                text,
                from,
            ) is Some ==> json_text_member(r@, key) == json_text_member(text, from),
{
    let mut object = serde_json::Map::new();
    for (name, field) in members {
        let value = match field {
            JsonField::Text(t) => serde_json::Value::from(t.as_str()),
            JsonField::Number(n) => serde_json::Value::from(*n),
            JsonField::Flag(b) => serde_json::Value::from(*b),
            JsonField::Value(v) => v.clone(),
        };
        object.insert(name.clone(), value);
    }
    serde_json::Value::Object(object).to_string()
}

/// Outside type: the error of `serde_json`.
#[verifier::external_type_specification]
#[verifier::external_body]
pub struct ExJsonError(serde_json::Error);

/// The text that `serde_json` writes over several lines for an object with these members.
pub uninterp spec fn json_pretty_text(members: Seq<(Seq<char>, JsonFieldView)>) -> Option<
    Seq<char>,
>;

/// Writes an object over several lines with `serde_json::to_string_pretty`. The result depends
/// on the members and nothing else, and a reader finds in it each text that was written; how it
/// lays them out is not stated, nor that it never fails. As with [`json_object`], a value of
/// another document has to have been read there.
#[verifier::external_body]
pub(crate) fn json_pretty(members: &Vec<(String, JsonField)>) -> (r: Result<
    String,
    serde_json::Error,
>)
    requires
        values_were_read(member_views(members@)),
    ensures
        match (r, json_pretty_text(member_views(members@))) {
            (Ok(a), Some(b)) => a@ == b && forall|key: Seq<char>, value: Seq<char>| #[trigger]
                says(member_views(members@), key, value) ==> json_text_member(a@, key) == Some(
                    value,
                ),
            (Err(_), None) => true,
            _ => false,
        },
{
    let mut object = serde_json::Map::new();
    for (name, field) in members {
        let value = match field {
            JsonField::Text(t) => serde_json::Value::from(t.as_str()),
            JsonField::Number(n) => serde_json::Value::from(*n),
            JsonField::Flag(b) => serde_json::Value::from(*b),
            JsonField::Value(v) => v.clone(),
        };
        object.insert(name.clone(), value);
    }
    serde_json::to_string_pretty(&serde_json::Value::Object(object))
}

} // verus!
