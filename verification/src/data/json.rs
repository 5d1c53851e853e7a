//! Reading a JSON document through `serde_json`.
//!
//! A document is kept as the value that `serde_json` made of it. What is
//! stated of such a value is stated over the names below, which stand for
//! what the calls into `serde_json` return; nothing here says what those
//! results are.

use vstd::prelude::*;
use serde_json::Value;

verus! {

/// A JSON value of `serde_json`.
#[verifier::external_type_specification]
#[verifier::external_body]
pub struct ExValue(serde_json::Value);

/// The error of `serde_json`.
#[verifier::external_type_specification]
#[verifier::external_body]
pub struct ExError(serde_json::Error);

/// The value that `serde_json::from_slice` reads from `bytes`, or none
/// where it fails.
pub uninterp spec fn json_parsed(bytes: Seq<u8>) -> Option<Value>;

/// What `Value::get` gives for a key: the member of an object under `key`,
/// or none where `value` is no object or has no such member.
pub uninterp spec fn json_member(value: Value, key: Seq<char>) -> Option<Value>;

/// What `Value::get` gives for a position: the item of an array at
/// `index`, or none where `value` is no array or is shorter.
pub uninterp spec fn json_item(value: Value, index: nat) -> Option<Value>;

/// The number of items of `value` where `Value::as_array` gives an array.
pub uninterp spec fn json_len(value: Value) -> Option<nat>;

/// What `Value::as_str` gives: the text of `value` where it is a string.
pub uninterp spec fn json_string(value: Value) -> Option<Seq<char>>;

/// The text that `value` is printed as, which is what `to_string` gives.
pub uninterp spec fn json_rendered(value: Value) -> Seq<char>;

/// `serde_json::from_slice` for a `Value`: the value read from `bytes`, or
/// the error of `serde_json`.
#[verifier::external_body]
pub(crate) fn from_slice(bytes: &[u8]) -> (result: Result<Value, serde_json::Error>)
    ensures
        match result {
            Ok(value) => json_parsed(bytes@) == Some(value),
            Err(_) => json_parsed(bytes@) is None,
        },
{
    serde_json::from_slice::<Value>(bytes)
}

/// `Value::get` with a key.
#[verifier::external_body]
pub(crate) fn member<'a>(value: &'a Value, key: &str) -> (found: Option<&'a Value>)
    ensures
        match found {
            Some(inner) => json_member(*value, key@) == Some(*inner),
            None => json_member(*value, key@) is None,
        },
{
    value.get(key)
}

/// `Value::get` with a position.
#[verifier::external_body]
pub(crate) fn item<'a>(value: &'a Value, index: usize) -> (found: Option<&'a Value>)
    ensures
        match found {
            Some(inner) => json_item(*value, index as nat) == Some(*inner),
            None => json_item(*value, index as nat) is None,
        },
{
    value.get(index)
}

/// `Value::as_array`, of which the length is taken.
#[verifier::external_body]
pub(crate) fn array_len(value: &Value) -> (len: Option<usize>)
    ensures
        match len {
            Some(n) => json_len(*value) == Some(n as nat),
            None => json_len(*value) is None,
        },
{
    match value.as_array() {
        Some(items) => Some(items.len()),
        None => None,
    }
}

/// `Value::as_str`.
#[verifier::external_body]
pub(crate) fn as_str<'a>(value: &'a Value) -> (text: Option<&'a str>)
    ensures
        match text {
            Some(s) => json_string(*value) == Some(s@),
            None => json_string(*value) is None,
        },
{
    value.as_str()
}

/// `to_string` of a `Value`.
#[verifier::external_body]
pub(crate) fn render(value: &Value) -> (text: String)
    ensures
        text@ == json_rendered(*value),
{
    value.to_string()
}

/// The text under `key` of an object, or the empty text where `value` has
/// no string under `key`.
pub open spec fn text_under(value: Value, key: Seq<char>) -> Seq<char> {
    match json_member(value, key) {
        Some(inner) => match json_string(inner) {
            Some(text) => text,
            None => Seq::empty(),
        },
        None => Seq::empty(),
    }
}

/// The strings among the first `n` items of `list`, in their order.
pub open spec fn strings_upto(list: Value, n: nat) -> Seq<Seq<char>>
    decreases n,
{
    if n == 0 {
        Seq::empty()
    } else {
        let front = strings_upto(list, (n - 1) as nat);
        match json_item(list, (n - 1) as nat) {
            Some(inner) => match json_string(inner) {
                Some(text) => front.push(text),
                None => front,
            },
            None => front,
        }
    }
}

/// The strings of the array under `key` of an object, or nothing where
/// `value` has no array under `key`.
pub open spec fn texts_under(value: Value, key: Seq<char>) -> Seq<Seq<char>> {
    match json_member(value, key) {
        Some(list) => match json_len(list) {
            Some(n) => strings_upto(list, n),
            None => Seq::empty(),
        },
        None => Seq::empty(),
    }
}

/// The text under `key` of an object, or the empty text where `content`
/// has no string under `key`.
pub fn get_string_from(content: &Value, key: &str) -> (text: String)
    ensures
        text@ == text_under(*content, key@),
{
    match member(content, key) {
        Some(inner) => match as_str(inner) {
            Some(text) => text.to_owned(),
            None => String::new(),
        },
        None => String::new(),
    }
}

/// The strings of the array under `key` of an object, or nothing where
/// `content` has no array under `key`.
pub fn get_vec_from(content: &Value, key: &str) -> (texts: Vec<String>)
    ensures
        texts.deep_view() == texts_under(*content, key@),
{
    let mut texts: Vec<String> = Vec::new();
    assert(texts.deep_view() =~= Seq::<Seq<char>>::empty());
    match member(content, key) {
        Some(list) => match array_len(list) {
            Some(n) => {
                let mut i: usize = 0;
                while i < n
                    invariant
                        i <= n,
                        texts.deep_view() == strings_upto(*list, i as nat),
                    decreases n - i,
                {
                    let ghost before = texts.deep_view();
                    match item(list, i) {
                        Some(inner) => match as_str(inner) {
                            Some(text) => {
                                texts.push(text.to_owned());
                                assert(texts.deep_view() =~= before.push(text@));
                            },
                            None => {},
                        },
                        None => {},
                    }
                    i += 1;
                }
                texts
            },
            None => texts,
        },
        None => texts,
    }
}

} // verus!
