use vstd::prelude::*;

verus! {

/// The text of a JSON object whose members are the given keys with string values.
pub uninterp spec fn json_text_of(fields: Seq<(Seq<char>, Seq<char>)>) -> Seq<char>;

/// The string value of a member of the JSON object in a text, if the text is
/// such an object and the member is a string.
pub uninterp spec fn json_field_of(text: Seq<char>, key: Seq<char>) -> Option<Seq<char>>;

/// The pairs of strings as sequences of characters.
pub open spec fn field_views(fields: Seq<(String, String)>) -> Seq<(Seq<char>, Seq<char>)> {
    fields.map_values(|p: (String, String)| (p.0@, p.1@))
}

/// No key occurs twice.
pub open spec fn distinct_keys(fields: Seq<(Seq<char>, Seq<char>)>) -> bool {
    forall|i: int, j: int| 0 <= i < j < fields.len() ==> fields[i].0 != fields[j].0
}

/// The value of the first pair with the given key.
pub open spec fn lookup(fields: Seq<(Seq<char>, Seq<char>)>, key: Seq<char>) -> Option<Seq<char>>
    decreases fields.len(),
{
    if fields.len() == 0 {
        None
    } else if fields[0].0 == key {
        Some(fields[0].1)
    } else {
        lookup(fields.drop_first(), key)
    }
}

/// Relies on serde_json: a `Map` of `Value::String` members, written out by
/// `Value::to_string`. Reading that text back (`json_field`) gives each key
/// its value, and no value for any other key.
#[verifier::external_body]
pub(crate) fn json_object(fields: &Vec<(String, String)>) -> (r: String)
    requires
        distinct_keys(field_views(fields@)),
    ensures
        r@ == json_text_of(field_views(fields@)),
        forall|key: Seq<char>| #[trigger]
            json_field_of(r@, key) == lookup(field_views(fields@), key),
{
    let map: serde_json::Map<String, serde_json::Value> = fields
        .iter()
        .map(|(k, v)| (k.clone(), serde_json::Value::String(v.clone())))
        .collect();
    serde_json::Value::Object(map).to_string()
}

/// Relies on `serde_json::from_str::<Value>`, `Value::get` and `Value::as_str`:
/// the member's string value, which depends on the text and key alone.
#[verifier::external_body]
pub(crate) fn json_field(text: &str, key: &str) -> (r: Option<String>)
    ensures
        match r {
            Some(s) => json_field_of(text@, key@) == Some(s@),
            None => json_field_of(text@, key@) is None,
        },
{
    match serde_json::from_str::<serde_json::Value>(text) {
        Ok(v) => v.get(key).and_then(|f| f.as_str()).map(|s| s.to_string()),
        Err(_) => None,
    }
}

} // verus!
