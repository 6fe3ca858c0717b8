//! Header maps.
use hyper::header::HeaderValue;
use hyper::HeaderMap;
use vstd::prelude::*;

use crate::text::ascii_lowered;

verus! {

/// Declares `hyper::header::HeaderMap`.
#[verifier::external_type_specification]
#[verifier::external_body]
#[verifier::reject_recursive_types(T)]
pub struct ExHeaderMap<T>(hyper::header::HeaderMap<T>);

/// Declares `hyper::header::HeaderValue`.
#[verifier::external_type_specification]
#[verifier::external_body]
pub struct ExHeaderValue(hyper::header::HeaderValue);

/// The contents of a header map: for each name that is present, in lower case, its values in the
/// order in which they were added.
pub uninterp spec fn header_entries(m: hyper::HeaderMap) -> Map<Seq<char>, Seq<Seq<u8>>>;

/// The number of names up to which a header map can be added to without reaching its limit.
pub const MAX_NAMES: usize = 6553;

/// Whether a character may stand in a header name.
pub open spec fn name_char(c: char) -> bool {
    ||| '0' <= c <= '9'
    ||| 'A' <= c <= 'Z'
    ||| '^' <= c <= 'z'
    ||| '!' <= c <= '\''
    ||| c == '*'
    ||| c == '+'
    ||| c == '-'
    ||| c == '.'
    ||| c == '|'
    ||| c == '~'
}

/// Whether a string is a header name, in upper or lower case.
pub open spec fn valid_name(s: Seq<char>) -> bool {
    &&& 0 < s.len() <= 0xFFFF
    &&& forall|i: int| 0 <= i < s.len() ==> name_char(#[trigger] s[i])
}

/// Whether a byte may stand in a header value.
pub open spec fn value_byte(b: u8) -> bool {
    b >= 32 && b != 127 || b == 9
}

/// Whether bytes are a header value.
pub open spec fn valid_value(bytes: Seq<u8>) -> bool {
    forall|i: int| 0 <= i < bytes.len() ==> value_byte(#[trigger] bytes[i])
}

/// Whether a byte is a visible ASCII character, a space or a tab.
pub open spec fn visible_byte(b: u8) -> bool {
    32 <= b < 127 || b == 9
}

/// The text of a header value: `Some` where all of its bytes are visible.
pub open spec fn value_text(bytes: Seq<u8>) -> Option<Seq<char>> {
    if forall|i: int| 0 <= i < bytes.len() ==> visible_byte(#[trigger] bytes[i]) {
        Some(bytes.map_values(|b: u8| b as char))
    } else {
        None
    }
}

/// The contents of a map without headers.
pub open spec fn no_headers() -> Map<Seq<char>, Seq<Seq<u8>>> {
    Map::empty()
}

/// Calls `HeaderMap::new`: a map without headers.
#[verifier::external_body]
pub(crate) fn empty() -> (res: HeaderMap)
    ensures
        header_entries(res) == no_headers(),
{
    HeaderMap::new()
}

/// The values of `name`, none where the name is absent.
pub open spec fn values_of(entries: Map<Seq<char>, Seq<Seq<u8>>>, name: Seq<char>) -> Seq<Seq<u8>> {
    if entries.contains_key(name) {
        entries[name]
    } else {
        Seq::empty()
    }
}

/// `entries` with one more value of `name`, behind those that it has.
pub open spec fn appended(
    entries: Map<Seq<char>, Seq<Seq<u8>>>,
    name: Seq<char>,
    value: Seq<u8>,
) -> Map<Seq<char>, Seq<Seq<u8>>> {
    entries.insert(name, values_of(entries, name).push(value))
}

/// `entries` with `value` as the one value of `name`.
pub open spec fn replaced(
    entries: Map<Seq<char>, Seq<Seq<u8>>>,
    name: Seq<char>,
    value: Seq<u8>,
) -> Map<Seq<char>, Seq<Seq<u8>>> {
    entries.insert(name, seq![value])
}

/// Whether `more` names can be added to a map that holds `entries`.
pub open spec fn has_room(entries: Map<Seq<char>, Seq<Seq<u8>>>, more: nat) -> bool {
    entries.dom().finite() && entries.dom().len() + more <= MAX_NAMES
}

/// Calls `HeaderMap::try_append`: the value is added behind those that the name already has, unless
/// the map has reached its limit, which leaves it as it is. Names are compared in lower case.
///
/// Where the limit lies depends on how the map has placed its names, which its contents do not
/// show. It is never reached below [`MAX_NAMES`] names.
#[verifier::external_body]
pub(crate) fn try_append(map: &mut HeaderMap, name: &str, value: &[u8]) -> (res: bool)
    requires
        valid_name(name@),
        valid_value(value@),
    ensures
        has_room(header_entries(*old(map)), 1) ==> res,
        header_entries(*final(map)) == if res {
            appended(header_entries(*old(map)), ascii_lowered(name@), value@)
        } else {
            header_entries(*old(map))
        },
{
    map.try_append(
        hyper::header::HeaderName::from_bytes(name.as_bytes()).unwrap(),
        HeaderValue::from_bytes(value).unwrap(),
    ).is_ok()
}

/// Calls `HeaderMap::try_insert`: the value takes the place of all those that the name had, unless
/// the map has reached its limit, which leaves it as it is. Names are compared in lower case.
///
/// Where the limit lies depends on how the map has placed its names, which its contents do not
/// show. It is never reached below [`MAX_NAMES`] names.
#[verifier::external_body]
pub(crate) fn try_insert(map: &mut HeaderMap, name: &str, value: &[u8]) -> (res: bool)
    requires
        valid_name(name@),
        valid_value(value@),
    ensures
        has_room(header_entries(*old(map)), 1) ==> res,
        header_entries(*final(map)) == if res {
            replaced(header_entries(*old(map)), ascii_lowered(name@), value@)
        } else {
            header_entries(*old(map))
        },
{
    map.try_insert(
        hyper::header::HeaderName::from_bytes(name.as_bytes()).unwrap(),
        HeaderValue::from_bytes(value).unwrap(),
    ).is_ok()
}

/// Calls `HeaderMap::remove`: all values of the name leave the map, and the first of them is
/// returned. What is returned is a header value.
#[verifier::external_body]
pub(crate) fn remove(map: &mut HeaderMap, name: &str) -> (res: Option<Vec<u8>>)
    ensures
        header_entries(*final(map)) == header_entries(*old(map)).remove(ascii_lowered(name@)),
        match res {
            Some(value) => {
                &&& values_of(header_entries(*old(map)), ascii_lowered(name@)).len() > 0
                &&& values_of(header_entries(*old(map)), ascii_lowered(name@))[0] == value@
                &&& valid_value(value@)
            },
            None => !header_entries(*old(map)).contains_key(ascii_lowered(name@)),
        },
{
    map.remove(name).map(|value| value.as_bytes().to_vec())
}

/// The contents of a list of values.
pub open spec fn bytes_list(values: Seq<Vec<u8>>) -> Seq<Seq<u8>> {
    values.map_values(|v: Vec<u8>| v@)
}

/// Calls `HeaderMap::get_all`: the values of a name, in order. Each is a header value, and where
/// there is one the name is a header name.
#[verifier::external_body]
pub(crate) fn get_all(map: &HeaderMap, name: &str) -> (res: Vec<Vec<u8>>)
    ensures
        bytes_list(res@) == values_of(header_entries(*map), ascii_lowered(name@)),
        forall|i: int| 0 <= i < res@.len() ==> valid_value((#[trigger] res@[i])@),
        res@.len() > 0 ==> valid_name(name@),
        res@.len() == 0 ==> !header_entries(*map).contains_key(ascii_lowered(name@)),
{
    map.get_all(name).iter().map(|value| value.as_bytes().to_vec()).collect()
}

/// Calls `HeaderMap::get` and, on what it finds, `HeaderValue::to_str`: the text of the first value
/// of a name.
#[verifier::external_body]
pub(crate) fn get_text<'a>(map: &'a HeaderMap, name: &str) -> (res: Option<&'a str>)
    ensures
        first_text(header_entries(*map), ascii_lowered(name@)) == match res {
            Some(s) => Some(s@),
            None => None,
        },
{
    map.get(name)?.to_str().ok()
}

/// The text of the first value of `name`: `None` where the name is absent or the value is not
/// visible text.
pub open spec fn first_text(entries: Map<Seq<char>, Seq<Seq<u8>>>, name: Seq<char>) -> Option<Seq<char>> {
    let values = values_of(entries, name);
    if values.len() == 0 {
        None
    } else {
        value_text(values[0])
    }
}

} // verus!
