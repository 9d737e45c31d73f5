//! The headers of a request.

use crate::text::chars_of;
use axum::http::{HeaderMap, HeaderValue};
use vstd::prelude::*;

verus! {

/// An opaque set of headers (`http::HeaderMap`).
#[verifier::external_type_specification]
#[verifier::external_body]
#[verifier::reject_recursive_types(T)]
pub struct ExHeaderMap<T>(HeaderMap<T>);

/// An opaque value of a header (`http::HeaderValue`).
#[verifier::external_type_specification]
#[verifier::external_body]
pub struct ExHeaderValue(HeaderValue);

/// The first value of each header, under the header's name in small letters.
pub uninterp spec fn header_values(h: HeaderMap) -> Map<Seq<char>, Seq<u8>>;

/// The bytes of a header's value.
pub uninterp spec fn header_bytes(v: HeaderValue) -> Seq<u8>;

/// Holds of a name in small letters and hyphens.
pub open spec fn plain_name(name: Seq<char>) -> bool {
    forall|i: int| 0 <= i < name.len() ==> 'a' <= #[trigger] name[i] <= 'z' || name[i] == '-'
}

/// Looks up a header (`HeaderMap::get`): its first value, if it has one.
#[verifier::external_body]
fn get<'a>(h: &'a HeaderMap, name: &str) -> (r: Option<&'a HeaderValue>)
    requires
        plain_name(name@),
    ensures
        match r {
            Some(v) => header_values(*h).contains_key(name@) && header_bytes(*v)
                == header_values(*h)[name@],
            None => !header_values(*h).contains_key(name@),
        },
{
    h.get(name)
}

/// Holds of bytes that are visible ASCII characters, spaces or tabs.
pub open spec fn visible(bytes: Seq<u8>) -> bool {
    forall|i: int| 0 <= i < bytes.len() ==> 32 <= #[trigger] bytes[i] < 127 || bytes[i] == 9
}

/// The text of ASCII bytes.
pub open spec fn ascii_text(bytes: Seq<u8>) -> Seq<char> {
    bytes.map_values(|b: u8| b as char)
}

/// The text of a header's value (`HeaderValue::to_str`): nothing if a byte in it is neither visible
/// ASCII nor a space or tab.
#[verifier::external_body]
fn value_text(v: &HeaderValue) -> (r: Option<&str>)
    ensures
        match r {
            Some(s) => visible(header_bytes(*v)) && s@ == ascii_text(header_bytes(*v)),
            None => !visible(header_bytes(*v)),
        },
{
    v.to_str().ok()
}

/// The text of the first value of a header: nothing if the header is missing or its value is no
/// text.
pub open spec fn header_text_of(values: Map<Seq<char>, Seq<u8>>, name: Seq<char>) -> Option<
    Seq<char>,
> {
    if values.contains_key(name) && visible(values[name]) {
        Some(ascii_text(values[name]))
    } else {
        None
    }
}

/// Reads the text of a header.
pub fn header_text(h: &HeaderMap, name: &str) -> (r: Option<Vec<char>>)
    requires
        plain_name(name@),
    ensures
        match r {
            Some(s) => header_text_of(header_values(*h), name@) == Some(s@),
            None => header_text_of(header_values(*h), name@) is None,
        },
{
    match get(h, name) {
        Some(v) => match value_text(v) {
            Some(s) => Some(chars_of(s)),
            None => None,
        },
        None => None,
    }
}

// ---------- Laws ----------

/// The text of a header is its value, character for byte, all of it; there is none if the header is
/// missing, or if a byte in it is neither visible ASCII nor a space or a tab.
pub proof fn header_is_read_whole(h: HeaderMap, name: &str, r: Option<Vec<char>>)
    requires
        call_ensures(header_text, (&h, name), r),
    ensures
        r is Some <==> header_values(h).contains_key(name@) && forall|i: int|
            0 <= i < header_values(h)[name@].len() ==> {
                ||| 32 <= #[trigger] header_values(h)[name@][i] < 127
                ||| header_values(h)[name@][i] == 9
            },
        r matches Some(text) ==> {
            &&& text@.len() == header_values(h)[name@].len()
            &&& forall|i: int|
                0 <= i < text@.len() ==> #[trigger] text@[i] as int == header_values(h)[name@][i]
        },
{
}

}
