//! The header map of the `http` crate, and what is known of the calls made
//! on it.
//!
//! A map keeps one group per header name, in the order the names were
//! first added; each group keeps its values in the order they were added.
//! Walking the map yields every value of the first group, then every value
//! of the second, and so on.

use vstd::prelude::*;
use http::{HeaderMap, HeaderName, HeaderValue};
use crate::unicode::ascii_lowercase;

verus! {

broadcast use vstd::string::group_string_axioms;

#[verifier::external_type_specification]
#[verifier::external_body]
#[verifier::reject_recursive_types(T)]
pub struct ExHeaderMap<T>(HeaderMap<T>);

#[verifier::external_type_specification]
#[verifier::external_body]
pub struct ExHeaderValue(HeaderValue);

/// The groups a map holds: each header name (lowercase) with its values.
pub uninterp spec fn header_groups(m: HeaderMap) -> Seq<(Seq<char>, Seq<Seq<u8>>)>;

/// Where the group of `name` stands, or -1 when there is none.
pub open spec fn group_index(g: Seq<(Seq<char>, Seq<Seq<u8>>)>, name: Seq<char>) -> int
    decreases g.len(),
{
    if g.len() == 0 {
        -1
    } else if g.last().0 == name {
        g.len() - 1
    } else {
        group_index(g.drop_last(), name)
    }
}

/// The groups after one more value for `name`: it joins the end of that
/// name's group, or starts a new group at the end.
pub open spec fn spec_header_append(
    g: Seq<(Seq<char>, Seq<Seq<u8>>)>,
    name: Seq<char>,
    value: Seq<u8>,
) -> Seq<(Seq<char>, Seq<Seq<u8>>)> {
    let i = group_index(g, name);
    if i >= 0 {
        g.update(i, (name, g[i].1.push(value)))
    } else {
        g.push((name, seq![value]))
    }
}

/// The name/value pairs in the order a walk over the map yields them.
pub open spec fn flatten_groups(g: Seq<(Seq<char>, Seq<Seq<u8>>)>) -> Seq<(Seq<char>, Seq<u8>)>
    decreases g.len(),
{
    if g.len() == 0 {
        Seq::empty()
    } else {
        let last = g.last();
        flatten_groups(g.drop_last()) + last.1.map_values(|v: Seq<u8>| (last.0, v))
    }
}

/// A character that may stand in a header name (an HTTP token character).
pub open spec fn is_token_char(c: char) -> bool {
    ||| ('a' <= c && c <= 'z')
    ||| ('A' <= c && c <= 'Z')
    ||| ('0' <= c && c <= '9')
    ||| c == '!' || c == '#' || c == '$' || c == '%' || c == '&' || c == '\''
    ||| c == '*' || c == '+' || c == '-' || c == '.' || c == '^' || c == '_'
    ||| c == '`' || c == '|' || c == '~'
}

/// A text that `HeaderName::from_bytes` accepts.
pub open spec fn valid_header_name(name: Seq<char>) -> bool {
    &&& 1 <= name.len() <= 65535
    &&& forall|i: int| 0 <= i < name.len() ==> is_token_char(#[trigger] name[i])
}

/// Bytes that `HeaderValue::from_bytes` accepts.
pub open spec fn valid_header_value(value: Seq<u8>) -> bool {
    forall|i: int| 0 <= i < value.len() ==> (#[trigger] value[i] == 9 || (value[i] >= 32 && value[i] != 127))
}

pub open spec fn item_pairs(v: Seq<(String, Vec<u8>)>) -> Seq<(Seq<char>, Seq<u8>)> {
    v.map_values(|p: (String, Vec<u8>)| (p.0@, p.1@))
}

/// `HeaderMap::iter`, with each name taken by `HeaderName::as_str` and each
/// value by `HeaderValue::as_bytes`: the pairs in walking order. `as_str`
/// is documented to give the name in lowercase.
#[verifier::external_body]
pub(crate) fn header_map_items(m: &HeaderMap) -> (r: Vec<(String, Vec<u8>)>)
    ensures
        item_pairs(r@) == flatten_groups(header_groups(*m)),
        forall|i: int| 0 <= i < r@.len() ==> ascii_lowercase(#[trigger] r@[i].0@) == r@[i].0@,
{
    m.iter().map(|(n, v)| (n.as_str().to_string(), v.as_bytes().to_vec())).collect()
}

/// `HeaderMap::clone`: a map with the same groups.
#[verifier::external_body]
pub(crate) fn header_map_clone(m: &HeaderMap) -> (r: HeaderMap)
    ensures
        header_groups(r) == header_groups(*m),
{
    m.clone()
}

/// `HeaderMap::try_append` of the name made by `HeaderName::from_bytes` and
/// the value made by `HeaderValue::from_bytes`. On success the value joins
/// the group of the name, which `from_bytes` turns to lowercase; a name or
/// value that does not convert, or a map that has reached its size limit,
/// leaves the map as it was. When the limit is reached is not stated.
#[verifier::external_body]
pub(crate) fn header_map_try_append(m: &mut HeaderMap, name: &str, value: &[u8]) -> (ok: bool)
    ensures
        ok ==> valid_header_name(name@) && valid_header_value(value@),
        ok ==> header_groups(*final(m)) == spec_header_append(
            header_groups(*old(m)),
            ascii_lowercase(name@),
            value@,
        ),
        !ok ==> header_groups(*final(m)) == header_groups(*old(m)),
{
    match (HeaderName::from_bytes(name.as_bytes()), HeaderValue::from_bytes(value)) {
        (Ok(n), Ok(v)) => m.try_append(n, v).is_ok(),
        _ => false,
    }
}

} // verus!
