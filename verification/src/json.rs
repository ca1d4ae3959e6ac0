//! Reading values out of JSON text. The text is parsed by `serde_json`; what
//! a JSON pointer addresses in it is named `json_item_at`, and the readers of
//! the library are stated over that name.

use vstd::prelude::*;

use crate::text::dec;

verus! {

/// What a JSON pointer addresses in a document, as far as the library reads
/// it: nothing, a string, a number (with its text), an array (with its
/// length), an object, or another value.
#[derive(Debug)]
pub enum JsonItem {
    Absent,
    Text(String),
    Number(String),
    Array(usize),
    Object,
    Other,
}

/// Whether `serde_json` accepts the text as a JSON document.
pub uninterp spec fn json_valid(text: Seq<char>) -> bool;

/// What `serde_json::Value::pointer` addresses in the document the text
/// holds, when it is one.
pub uninterp spec fn json_item_at(text: Seq<char>, pointer: Seq<char>) -> Option<JsonItem>;

/// Parses `text` with `serde_json::from_str::<serde_json::Value>` and reads
/// the value at the JSON pointer `pointer` (`Value::pointer`). Claimed: it
/// succeeds exactly when the text is JSON, with the named item.
#[verifier::external_body]
pub(crate) fn json_at(text: &str, pointer: &str) -> (r: Option<JsonItem>)
    ensures
        r == json_item_at(text@, pointer@),
        r is Some <==> json_valid(text@),
{
    let v: serde_json::Value = match serde_json::from_str(text) {
        Ok(v) => v,
        Err(_) => return None,
    };
    Some(match v.pointer(pointer) {
        None => JsonItem::Absent,
        Some(serde_json::Value::String(s)) => JsonItem::Text(s.clone()),
        Some(serde_json::Value::Number(n)) => JsonItem::Number(n.to_string()),
        Some(serde_json::Value::Array(a)) => JsonItem::Array(a.len()),
        Some(serde_json::Value::Object(_)) => JsonItem::Object,
        Some(_) => JsonItem::Other,
    })
}

/// The pointer to the member `key` of the value at `base`.
pub open spec fn member_pointer(base: Seq<char>, key: Seq<char>) -> Seq<char> {
    base + "/"@ + key
}

/// The pointer to the element `i` of the array at `base`.
pub open spec fn index_pointer(base: Seq<char>, i: nat) -> Seq<char> {
    base + "/"@ + dec(i)
}

/// Decimal text of a `usize`.
fn usize_to_dec(n: usize) -> (s: String)
    ensures
        s@ == dec(n as nat),
    decreases n,
{
    if n < 10 {
        crate::text::u32_to_dec(n as u32)
    } else {
        let mut s = usize_to_dec(n / 10);
        let d = crate::text::u32_to_dec((n % 10) as u32);
        s.append(d.as_str());
        s
    }
}

/// Builds the pointer to the member `key` of the value at `base`.
pub fn member_of(base: &str, key: &str) -> (p: String)
    ensures
        p@ == member_pointer(base@, key@),
{
    let mut p = base.to_string();
    p.append("/");
    p.append(key);
    p
}

/// Builds the pointer to the element `i` of the array at `base`.
pub fn element_of(base: &str, i: usize) -> (p: String)
    ensures
        p@ == index_pointer(base@, i as nat),
{
    let mut p = base.to_string();
    p.append("/");
    let d = usize_to_dec(i);
    p.append(d.as_str());
    p
}

} // verus!
