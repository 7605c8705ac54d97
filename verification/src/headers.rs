//! Header maps of the `http` crate, with what they hold as a map from lower-case names to the
//! values of that name in their order.

use http::header::MaxSizeReached;
use http::{HeaderMap, HeaderValue};
use vstd::prelude::*;
use vstd::utf8::encode_utf8;

verus! {

/// The type of one header value.
#[verifier::external_type_specification]
#[verifier::external_body]
pub struct ExHeaderValue(http::HeaderValue);

/// The type of a header map.
#[verifier::external_type_specification]
#[verifier::external_body]
#[verifier::reject_recursive_types(T)]
pub struct ExHeaderMap<T>(http::HeaderMap<T>);

/// The error of an insertion into a header map that cannot grow.
#[verifier::external_type_specification]
#[verifier::external_body]
pub struct ExMaxSizeReached(http::header::MaxSizeReached);

/// Lower-case names with their values.
pub type HeaderFields = Map<Seq<char>, Seq<Seq<u8>>>;

/// What a header map holds.
pub uninterp spec fn header_fields(map: HeaderMap<HeaderValue>) -> Map<Seq<char>, Seq<Seq<u8>>>;

/// The names and values of a header map in the order in which the map lists them.
pub uninterp spec fn header_entries(map: HeaderMap<HeaderValue>) -> Seq<(Seq<char>, Seq<u8>)>;

/// The values of `name` in `fields`.
pub open spec fn values_of(fields: HeaderFields, name: Seq<char>) -> Seq<Seq<u8>> {
    if fields.dom().contains(name) {
        fields[name]
    } else {
        Seq::empty()
    }
}

/// The values of `name` in a list of names and values.
pub open spec fn values_named(list: Seq<(Seq<char>, Seq<u8>)>, name: Seq<char>) -> Seq<Seq<u8>>
    decreases list.len(),
{
    if list.len() == 0 {
        Seq::empty()
    } else if list.last().0 == name {
        values_named(list.drop_last(), name).push(list.last().1)
    } else {
        values_named(list.drop_last(), name)
    }
}

/// What a vector of names and values holds.
pub open spec fn list_view(list: Seq<(String, Vec<u8>)>) -> Seq<(Seq<char>, Seq<u8>)> {
    list.map_values(|p: (String, Vec<u8>)| (p.0@, p.1@))
}

/// Lower-case letters and hyphens, at least one and at most 64.
pub open spec fn is_header_name(s: Seq<char>) -> bool {
    &&& 0 < s.len() <= 64
    &&& forall|i: int| 0 <= i < s.len() ==> 'a' <= #[trigger] s[i] <= 'z' || s[i] == '-'
}

/// Whether `s` may stand in a header value: no control character but the tab.
pub open spec fn is_header_text(s: Seq<char>) -> bool {
    forall|i: int|
        0 <= i < s.len() ==> #[trigger] s[i] == '\t' || (s[i] >= ' ' && s[i] != '\u{7f}')
}

/// A printable ASCII character, a space or a tab.
pub open spec fn is_visible(b: u8) -> bool {
    32 <= b < 127 || b == 9
}

/// The text of a header value whose bytes are all visible ASCII.
pub open spec fn visible_text(bytes: Seq<u8>) -> Option<Seq<char>> {
    if forall|i: int| 0 <= i < bytes.len() ==> is_visible(#[trigger] bytes[i]) {
        Some(bytes.map_values(|b: u8| b as char))
    } else {
        None
    }
}

/// Up to this many names an insertion into a header map succeeds.
pub const MAX_SAFE_NAMES: usize = 6553;

/// `HeaderMap::new` holds nothing.
#[verifier::external_body]
pub(crate) fn no_headers() -> (r: HeaderMap<HeaderValue>)
    ensures
        header_fields(r) == HeaderFields::empty(),
        header_entries(r).len() == 0,
{
    HeaderMap::new()
}

/// The `clone` of a header map holds what the map holds.
#[verifier::external_body]
pub(crate) fn copy_headers(map: &HeaderMap<HeaderValue>) -> (r: HeaderMap<HeaderValue>)
    ensures
        header_fields(r) == header_fields(*map),
{
    map.clone()
}

/// `HeaderMap::get` gives the first value of a name, here by its bytes. A name that is there has
/// one.
#[verifier::external_body]
pub(crate) fn first_value(map: &HeaderMap<HeaderValue>, name: &str) -> (r: Option<Vec<u8>>)
    requires
        is_header_name(name@),
    ensures
        r is Some <==> header_fields(*map).dom().contains(name@),
        r matches Some(v) ==> header_fields(*map)[name@].len() > 0 && v@ == header_fields(
            *map,
        )[name@][0],
{
    map.get(name).map(|v| v.as_bytes().to_vec())
}

/// `HeaderMap::contains_key` tells whether a name has a value.
#[verifier::external_body]
pub(crate) fn has_header(map: &HeaderMap<HeaderValue>, name: &str) -> (r: bool)
    requires
        is_header_name(name@),
    ensures
        r == header_fields(*map).dom().contains(name@),
{
    map.contains_key(name)
}

/// Whether there are `n` names.
pub open spec fn has_names(fields: HeaderFields, n: nat) -> bool {
    fields.dom().finite() && fields.dom().len() == n
}

/// `HeaderMap::keys_len` counts the names.
#[verifier::external_body]
pub(crate) fn count_names(map: &HeaderMap<HeaderValue>) -> (r: usize)
    ensures
        has_names(header_fields(*map), r as nat),
{
    map.keys_len()
}

/// `HeaderMap::remove` removes all values of a name.
#[verifier::external_body]
pub(crate) fn remove_header(map: &mut HeaderMap<HeaderValue>, name: &str)
    requires
        is_header_name(name@),
    ensures
        header_fields(*final(map)) == header_fields(*old(map)).remove(name@),
{
    map.remove(name);
}

/// `HeaderValue::from_str` accepts a text without control characters other than the tab.
#[verifier::external_body]
pub(crate) fn is_header_value(s: &str) -> (r: bool)
    ensures
        r == is_header_text(s@),
{
    HeaderValue::from_str(s).is_ok()
}

/// `HeaderMap::try_insert` puts one value in the place of all values of a name. It fails,
/// and changes nothing, only if the map would have to grow beyond its largest size, which no
/// map with at most `MAX_SAFE_NAMES` names does.
#[verifier::external_body]
pub(crate) fn set_header(
    map: &mut HeaderMap<HeaderValue>,
    name: &'static str,
    value: &str,
) -> (r: Result<(), MaxSizeReached>)
    requires
        is_header_name(name@),
        is_header_text(value@),
    ensures
        r is Ok ==> header_fields(*final(map)) == header_fields(*old(map)).insert(
            name@,
            seq![encode_utf8(value@)],
        ),
        r is Err ==> header_fields(*final(map)) == header_fields(*old(map)),
        header_fields(*old(map)).dom().finite() && header_fields(*old(map)).dom().len()
            <= MAX_SAFE_NAMES ==> r is Ok,
{
    map.try_insert(name, HeaderValue::from_str(value).unwrap()).map(|_| ())
}

/// Whether a list holds what `fields` holds: for each name its values in their order.
pub open spec fn lists(list: Seq<(Seq<char>, Seq<u8>)>, fields: HeaderFields) -> bool {
    forall|name: Seq<char>| #[trigger] values_named(list, name) == values_of(fields, name)
}

/// `HeaderMap::iter` yields each name once for each of its values, of which there is at least one,
/// and the values of one name in their order. The order of the names is arbitrary, but fixed for
/// a map.
#[verifier::external_body]
pub(crate) fn header_list(map: &HeaderMap<HeaderValue>) -> (r: Vec<(String, Vec<u8>)>)
    ensures
        list_view(r@) == header_entries(*map),
        lists(list_view(r@), header_fields(*map)),
        forall|name: Seq<char>| #[trigger]
            header_fields(*map).dom().contains(name) ==> values_named(list_view(r@), name).len()
                > 0,
{
    map.iter().map(|(n, v)| (n.as_str().to_owned(), v.as_bytes().to_vec())).collect()
}

/// The text of a header value, if its bytes are all visible ASCII.
pub fn header_value_text(bytes: &Vec<u8>) -> (r: Option<String>)
    ensures
        r is Some <==> visible_text(bytes@) is Some,
        r matches Some(s) ==> visible_text(bytes@) == Some(s@),
{
    let mut s = String::new();
    let mut i: usize = 0;
    let ghost chars = bytes@.map_values(|b: u8| b as char);
    while i < bytes.len()
        invariant
            i <= bytes@.len(),
            chars == bytes@.map_values(|b: u8| b as char),
            s@ == chars.take(i as int),
            forall|j: int| 0 <= j < i ==> is_visible(#[trigger] bytes@[j]),
        decreases bytes@.len() - i,
    {
        let b = bytes[i];
        if !((32 <= b && b < 127) || b == 9) {
            assert(!is_visible(bytes@[i as int]));
            return None;
        }
        s.push(b as char);
        assert(chars.take(i + 1) == chars.take(i as int).push(b as char));
        i += 1;
    }
    assert(chars.take(i as int) == chars);
    Some(s)
}

} // verus!
