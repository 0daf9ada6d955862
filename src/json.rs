use vstd::prelude::*;
use rustc_serialize::json::{Json, ToJson};

verus! {

/// The JSON text of an array of strings.
pub uninterp spec fn json_string_array(items: Seq<Seq<char>>) -> Seq<char>;

/// The JSON text of an array of objects whose values are all strings, each
/// object given as its key/value pairs.
pub uninterp spec fn json_object_array(objects: Seq<Seq<(Seq<char>, Seq<char>)>>) -> Seq<char>;

/// `c` is written as it stands inside a JSON string: no quote, backslash or
/// control character.
pub open spec fn is_plain_char(c: char) -> bool {
    c != '"' && c != '\\' && c as u32 >= 32 && c as u32 != 127
}

pub open spec fn is_plain_text(s: Seq<char>) -> bool {
    forall|i: int| 0 <= i < s.len() ==> #[trigger] is_plain_char(s[i])
}

/// `s` between double quotes.
pub open spec fn json_quoted(s: Seq<char>) -> Seq<char> {
    seq!['"'] + s + seq!['"']
}

/// The quoted items, separated by commas.
pub open spec fn json_joined(items: Seq<Seq<char>>) -> Seq<char>
    decreases items.len(),
{
    if items.len() == 0 {
        Seq::empty()
    } else if items.len() == 1 {
        json_quoted(items[0])
    } else {
        json_joined(items.drop_last()) + seq![','] + json_quoted(items.last())
    }
}

/// The compact JSON array of strings that need no escapes.
pub open spec fn json_plain_array(items: Seq<Seq<char>>) -> Seq<char> {
    seq!['['] + json_joined(items) + seq![']']
}

pub open spec fn texts(items: Seq<String>) -> Seq<Seq<char>> {
    items.map_values(|s: String| s@)
}

pub open spec fn pair_texts(pairs: Seq<(String, String)>) -> Seq<(Seq<char>, Seq<char>)> {
    pairs.map_values(|p: (String, String)| (p.0@, p.1@))
}

pub open spec fn object_texts(objects: Seq<Vec<(String, String)>>) -> Seq<Seq<(Seq<char>, Seq<char>)>> {
    objects.map_values(|o: Vec<(String, String)>| pair_texts(o@))
}

/// Relies on rustc_serialize's `ToJson` for `Vec<String>` and the `Display`
/// of `Json`: a compact JSON array of the strings, `[]` when there are none;
/// `escape_str` leaves strings without quotes, backslashes or control
/// characters as they are.
#[verifier::external_body]
pub(crate) fn string_array_to_json(items: &Vec<String>) -> (r: String)
    ensures
        r@ == json_string_array(texts(items@)),
        items@.len() == 0 ==> r@ == seq!['[', ']'],
        (forall|i: int| 0 <= i < items@.len() ==> is_plain_text(#[trigger] items@[i]@)) ==> r@
            == json_plain_array(texts(items@)),
{
    items.to_json().to_string()
}

/// Relies on rustc_serialize's `Json::Array` of `Json::Object`s and the
/// `Display` of `Json`: a compact JSON array of objects, `[]` when there are
/// none.
#[verifier::external_body]
pub(crate) fn object_array_to_json(objects: &Vec<Vec<(String, String)>>) -> (r: String)
    ensures
        r@ == json_object_array(object_texts(objects@)),
        objects@.len() == 0 ==> r@ == seq!['[', ']'],
{
    Json::Array(
        objects
            .iter()
            .map(|o| Json::Object(o.iter().map(|(k, v)| (k.clone(), v.to_json())).collect()))
            .collect(),
    )
    .to_string()
}

} // verus!
