//! JSON objects as the renderers read them: the entries of a
//! `serde_json::Map`, in the order in which the map hands them out, each
//! value reduced to the scalar that a line can show.
use vstd::prelude::*;

verus! {

/// Trusted: the type `serde_json::Map`, carried through as it is. Nothing
/// is known of what a map holds but through `object_entries`.
#[verifier::external_type_specification]
#[verifier::external_body]
#[verifier::reject_recursive_types(K)]
#[verifier::reject_recursive_types(V)]
pub struct ExJsonObject<K, V>(serde_json::Map<K, V>);

/// Trusted: the type `serde_json::Value`, carried through as it is. Nothing
/// is known of a value; the library reads values only as the scalars that
/// `object_items` hands out.
#[verifier::external_type_specification]
#[verifier::external_body]
pub struct ExJsonValue(serde_json::Value);

/// A JSON value as far as a line shows it. A number is held as the text
/// that `serde_json` prints for it; arrays and objects are not looked into.
pub enum JsonScalar {
    Null,
    Bool(bool),
    Number(String),
    Text(String),
    Nested,
}

/// The mathematical model of a [`JsonScalar`].
pub enum ScalarModel {
    Null,
    Bool(bool),
    Number(Seq<char>),
    Text(Seq<char>),
    Nested,
}

impl View for JsonScalar {
    type V = ScalarModel;

    open spec fn view(&self) -> ScalarModel {
        match self {
            JsonScalar::Null => ScalarModel::Null,
            JsonScalar::Bool(b) => ScalarModel::Bool(*b),
            JsonScalar::Number(s) => ScalarModel::Number(s@),
            JsonScalar::Text(s) => ScalarModel::Text(s@),
            JsonScalar::Nested => ScalarModel::Nested,
        }
    }
}

/// The model of a JSON object: its entries, key and value.
pub type Entries = Seq<(Seq<char>, ScalarModel)>;

/// The entries of a JSON object in the order in which the map iterates:
/// each key with its value as a scalar (a number by the text that
/// `serde_json` displays for it, an array or object as `Nested`). What
/// stands in it is known of a given map only by asking the map.
pub uninterp spec fn object_entries(m: serde_json::Map<String, serde_json::Value>) -> Entries;

/// The models of a list of key and value pairs.
pub open spec fn items_model(items: Seq<(String, JsonScalar)>) -> Entries {
    Seq::new(items.len(), |i: int| (items[i].0@, items[i].1@))
}

/// Whether some entry has the key.
pub open spec fn has_key(entries: Entries, key: Seq<char>) -> bool {
    exists|i: int| 0 <= i < entries.len() && entries[i].0 == key
}

/// Trusted: `serde_json::Map::iter`, with each key copied and each value
/// told apart by its variant: a string is copied, a number is written out
/// by `serde_json::Number`'s `Display`, an array or an object becomes
/// `Nested`. The contract gives what comes of the iteration, in its order,
/// the name `object_entries`; nothing else is claimed of it.
#[verifier::external_body]
pub(crate) fn object_items(m: &serde_json::Map<String, serde_json::Value>) -> (items: Vec<
    (String, JsonScalar),
>)
    ensures
        items_model(items@) == object_entries(*m),
{
    m.iter().map(|(k, v)| (k.clone(), match v {
        serde_json::Value::Null => JsonScalar::Null,
        serde_json::Value::Bool(b) => JsonScalar::Bool(*b),
        serde_json::Value::Number(n) => JsonScalar::Number(n.to_string()),
        serde_json::Value::String(s) => JsonScalar::Text(s.clone()),
        serde_json::Value::Array(_) => JsonScalar::Nested,
        serde_json::Value::Object(_) => JsonScalar::Nested,
    })).collect()
}

/// Trusted: `serde_json::Map::contains_key`. The map answers `true` exactly
/// for the keys of the entries that its iteration yields.
#[verifier::external_body]
pub(crate) fn object_has_key(m: &serde_json::Map<String, serde_json::Value>, key: &str) -> (r: bool)
    ensures
        r == has_key(object_entries(*m), key@),
{
    m.contains_key(key)
}

/// Trusted: `serde_json::Map::new`. A new map has no entries.
#[verifier::external_body]
pub(crate) fn empty_object() -> (m: serde_json::Map<String, serde_json::Value>)
    ensures
        object_entries(m) == Seq::<(Seq<char>, ScalarModel)>::empty(),
{
    serde_json::Map::new()
}

} // verus!
