//! JSON documents: what the library reads of them and writes into them.

use vstd::prelude::*;
use vstd::utf8::*;

verus! {

/// A value to be written into a JSON object.
#[derive(Debug)]
pub enum JsonField {
    Text(String),
    Flag(bool),
    Texts(Vec<String>),
    /// `null` where there is no text.
    MaybeText(Option<String>),
}

/// What a [`JsonField`] stands for.
#[verifier::ext_equal]
pub enum JsonFieldModel {
    Text(Seq<char>),
    Flag(bool),
    Texts(Seq<Seq<char>>),
    MaybeText(Option<Seq<char>>),
}

impl DeepView for JsonField {
    type V = JsonFieldModel;

    open spec fn deep_view(&self) -> JsonFieldModel {
        match self {
            JsonField::Text(s) => JsonFieldModel::Text(s@),
            JsonField::Flag(b) => JsonFieldModel::Flag(*b),
            JsonField::Texts(list) => JsonFieldModel::Texts(list.deep_view()),
            JsonField::MaybeText(s) => JsonFieldModel::MaybeText(s.deep_view()),
        }
    }
}

/// The bytes are a JSON document: `serde_json::from_slice` reads them as a value.
pub uninterp spec fn valid_json(bytes: Seq<u8>) -> bool;

/// The text that a JSON object has under a key, where the bytes are a JSON object and the value
/// under the key is a text.
pub uninterp spec fn text_field(bytes: Seq<u8>, key: Seq<char>) -> Option<Seq<char>>;

/// The elements of the array that a JSON object has under a key, where the bytes are a JSON
/// object and the value under the key is an array; an element that is not a text is `None`.
pub uninterp spec fn list_field(bytes: Seq<u8>, key: Seq<char>) -> Option<Seq<Option<Seq<char>>>>;

/// The JSON object with the given members, in the form that `serde_json::to_vec_pretty` writes.
pub uninterp spec fn object_text(fields: Seq<(Seq<char>, JsonFieldModel)>) -> Seq<u8>;

/// `serde_json::from_slice` into a `serde_json::Value`: whether the bytes are a JSON document.
/// It depends on the bytes alone.
#[verifier::external_body]
pub(crate) fn is_json(bytes: &[u8]) -> (r: bool)
    ensures
        r == valid_json(bytes@),
{
    serde_json::from_slice::<serde_json::Value>(bytes).is_ok()
}

/// `serde_json::from_slice`, `Value::get` and `Value::as_str`: the text that a JSON object has
/// under a key. It depends on the bytes and the key alone, and there is none where the bytes
/// are no JSON document.
#[verifier::external_body]
pub(crate) fn read_text(bytes: &[u8], key: &str) -> (r: Option<String>)
    ensures
        r.deep_view() == text_field(bytes@, key@),
        r is Some ==> valid_json(bytes@),
{
    let value = serde_json::from_slice::<serde_json::Value>(bytes).ok()?;
    value.get(key)?.as_str().map(|s| s.to_string())
}

/// `serde_json::from_slice`, `Value::get` and `Value::as_array`: the elements of the array that
/// a JSON object has under a key, each as the text it is (`Value::as_str`). It depends on the
/// bytes and the key alone, and there is none where the bytes are no JSON document.
#[verifier::external_body]
pub(crate) fn read_list(bytes: &[u8], key: &str) -> (r: Option<Vec<Option<String>>>)
    ensures
        r.deep_view() == list_field(bytes@, key@),
        r is Some ==> valid_json(bytes@),
{
    let value = serde_json::from_slice::<serde_json::Value>(bytes).ok()?;
    let list = value.get(key)?.as_array()?;
    Some(list.iter().map(|x| x.as_str().map(|s| s.to_string())).collect())
}

/// Members under distinct keys, none of which begins with a dollar sign: keys that do may have
/// a meaning of their own to the reader.
pub open spec fn ordinary_keys(fields: Seq<(Seq<char>, JsonFieldModel)>) -> bool {
    &&& forall|i: int|
        0 <= i < fields.len() ==> (#[trigger] fields[i]).0.len() > 0 && fields[i].0[0] != '$'
    &&& forall|i: int, j: int|
        #![trigger fields[i], fields[j]]
        0 <= i < j < fields.len() ==> fields[i].0 != fields[j].0
}

/// Each text and each list of texts among the members is read back under its key; no text is read
/// under the key of a flag or of `null`.
pub open spec fn reads_back(bytes: Seq<u8>, fields: Seq<(Seq<char>, JsonFieldModel)>) -> bool {
    forall|i: int|
        0 <= i < fields.len() ==> match (#[trigger] fields[i]).1 {
            JsonFieldModel::Text(s) => text_field(bytes, fields[i].0) == Some(s),
            JsonFieldModel::Texts(list) => list_field(bytes, fields[i].0) == Some(
                list.map_values(|s: Seq<char>| Some(s)),
            ),
            JsonFieldModel::MaybeText(s) => text_field(bytes, fields[i].0) == s,
            JsonFieldModel::Flag(_) => text_field(bytes, fields[i].0) is None,
        }
}

/// The bytes are a text in UTF-8.
pub open spec fn is_utf8_text(bytes: Seq<u8>) -> bool {
    exists|text: Seq<char>| bytes == #[trigger] encode_utf8(text)
}

/// `serde_json::to_vec_pretty` of a `serde_json::Map`: the JSON object with the given members.
/// The bytes depend on the members alone, and they are a text in UTF-8. Where the keys are
/// ordinary, they are a JSON document, the texts and the lists of texts are read back from them,
/// and nothing else is taken for a text.
#[verifier::external_body]
pub(crate) fn write_object(fields: &Vec<(String, JsonField)>) -> (r: Vec<u8>)
    ensures
        r@ == object_text(fields.deep_view()),
        is_utf8_text(r@),
        ordinary_keys(fields.deep_view()) ==> valid_json(r@) && reads_back(
            r@,
            fields.deep_view(),
        ),
{
    let mut object = serde_json::Map::new();
    for (key, field) in fields {
        let value = match field {
            JsonField::Text(s) => serde_json::Value::from(s.as_str()),
            JsonField::Flag(b) => serde_json::Value::from(*b),
            JsonField::Texts(list) => serde_json::Value::from(list.clone()),
            JsonField::MaybeText(s) => serde_json::Value::from(s.clone()),
        };
        object.insert(key.clone(), value);
    }
    serde_json::to_vec_pretty(&object).unwrap_or_default()
}

} // verus!
