//! Reading strings out of JSON documents.

use serde_json::Value;
use vstd::prelude::*;

verus! {

/// `serde_json::Value`, a JSON value.
#[verifier::external_type_specification]
#[verifier::external_body]
pub struct ExValue(serde_json::Value);

/// The strings in a JSON value, by the object keys that lead to them: a string
/// by no key, what is in an object by the key of its field and then its own
/// keys.
pub uninterp spec fn json_texts(v: Value) -> Map<Seq<Seq<char>>, Seq<char>>;

/// The items of the JSON array in a document, each by its strings; none where
/// the document is not a JSON array.
pub uninterp spec fn json_array(doc: Seq<u8>) -> Option<Seq<Map<Seq<Seq<char>>, Seq<char>>>>;

/// The strings behind the field `key`.
pub open spec fn under(
    texts: Map<Seq<Seq<char>>, Seq<char>>,
    key: Seq<char>,
) -> Map<Seq<Seq<char>>, Seq<char>> {
    Map::new(
        |path: Seq<Seq<char>>| texts.dom().contains(seq![key] + path),
        |path: Seq<Seq<char>>| texts[seq![key] + path],
    )
}

/// The string at a path of keys.
pub open spec fn text_at(
    texts: Map<Seq<Seq<char>>, Seq<char>>,
    path: Seq<Seq<char>>,
) -> Option<Seq<char>> {
    if texts.dom().contains(path) {
        Some(texts[path])
    } else {
        None
    }
}

/// `serde_json::from_slice`, into a list of values: it reads a document that
/// is a JSON array, and fails on every other one. The document alone
/// determines the items; which they are is not stated.
#[verifier::external_body]
pub(crate) fn read_array(doc: &[u8]) -> (r: Option<Vec<Value>>)
    ensures
        (match r {
            Some(v) => json_array(doc@) == Some(v@.map_values(|x: Value| json_texts(x))),
            None => json_array(doc@) is None,
        }),
{
    serde_json::from_slice::<Vec<Value>>(doc).ok()
}

/// `serde_json::Value::get` with a string: the value of a field of an object.
/// There is none where the object lacks the field, or where the value is no
/// object; no string then lies behind that key.
#[verifier::external_body]
pub(crate) fn field<'a>(v: &'a Value, key: &str) -> (r: Option<&'a Value>)
    ensures
        (match r {
            Some(x) => json_texts(*x) == under(json_texts(*v), key@),
            None => under(json_texts(*v), key@) == Map::<Seq<Seq<char>>, Seq<char>>::empty(),
        }),
{
    v.get(key)
}

/// `serde_json::Value::as_str`: the text of a JSON string, and nothing for any
/// other value.
#[verifier::external_body]
pub(crate) fn as_text(v: &Value) -> (r: Option<&str>)
    ensures
        crate::text::opt_str_view(r) == text_at(json_texts(*v), Seq::<Seq<char>>::empty()),
{
    v.as_str()
}

/// The string in the field `c` of the object in the field `b` of the object in
/// the field `a`.
pub(crate) fn text_in<'a>(v: &'a Value, a: &str, b: &str, c: &str) -> (r: Option<&'a str>)
    ensures
        crate::text::opt_str_view(r) == text_at(json_texts(*v), seq![a@, b@, c@]),
{
    let ghost m = json_texts(*v);
    let ghost none = Seq::<Seq<char>>::empty();
    assert(seq![a@] + (seq![b@] + (seq![c@] + none)) =~= seq![a@, b@, c@]);
    assert(text_at(m, seq![a@, b@, c@]) == text_at(under(under(under(m, a@), b@), c@), none));
    match field(v, a) {
        None => {
            assert(under(Map::<Seq<Seq<char>>, Seq<char>>::empty(), b@) =~= Map::empty());
            assert(under(Map::<Seq<Seq<char>>, Seq<char>>::empty(), c@) =~= Map::empty());
            None
        },
        Some(x) => match field(x, b) {
            None => {
                assert(under(Map::<Seq<Seq<char>>, Seq<char>>::empty(), c@) =~= Map::empty());
                None
            },
            Some(y) => match field(y, c) {
                None => None,
                Some(z) => as_text(z),
            },
        },
    }
}

} // verus!
