//! HTTP header maps as the web layer sees them: each header name with the bytes of its values.

use axum::http::{HeaderMap, HeaderName, HeaderValue};
use vstd::prelude::*;

verus! {

#[verifier::external_type_specification]
#[verifier::external_body]
pub struct ExHeaderValue(HeaderValue);

#[verifier::external_type_specification]
#[verifier::external_body]
#[verifier::reject_recursive_types(T)]
pub struct ExHeaderMap<T>(HeaderMap<T>);

/// What a header map holds: each header name (lower case, as `HeaderName::as_str` gives it)
/// with the bytes of its values, in the order they were appended.
pub uninterp spec fn header_map(headers: HeaderMap) -> Map<Seq<char>, Seq<Seq<u8>>>;

/// A header name made of lower-case ASCII letters and hyphens, within http's length limit.
pub open spec fn is_header_name(name: Seq<char>) -> bool {
    0 < name.len() < 65536 && forall|i: int|
        0 <= i < name.len() ==> (('a' <= #[trigger] name[i] && name[i] <= 'z') || name[i] == '-')
}

/// Header text made of visible ASCII characters and spaces.
pub open spec fn is_header_text(value: Seq<char>) -> bool {
    forall|i: int| 0 <= i < value.len() ==> (' ' <= #[trigger] value[i] && value[i] <= '~')
}

/// The bytes of ASCII text.
pub open spec fn ascii_bytes(s: Seq<char>) -> Seq<u8> {
    s.map_values(|c: char| c as u8)
}

/// A header map with room for `more` names: below 6553 names, five times the names stays under
/// http's largest table (32768 slots), so `insert` never needs to grow the table past it and
/// never hits its capacity panic.
pub open spec fn has_room(m: Map<Seq<char>, Seq<Seq<u8>>>, more: nat) -> bool {
    m.dom().finite() && m.dom().len() + more < 6553
}

/// http's `HeaderMap::insert`, under the name `HeaderName::from_bytes` and the value
/// `HeaderValue::from_str` make of the arguments (both accept what `requires` admits): the
/// name then holds exactly this one value, every earlier value of it is dropped, and the
/// other names are untouched. The bound on the map's size keeps `insert` clear of its
/// capacity panic.
#[verifier::external_body]
pub(crate) fn insert_header(headers: &mut HeaderMap, name: &str, value: &str)
    requires
        is_header_name(name@),
        is_header_text(value@),
        has_room(header_map(*old(headers)), 1),
    ensures
        header_map(*final(headers)) == header_map(*old(headers)).insert(
            name@,
            seq![ascii_bytes(value@)],
        ),
{
    if let (Ok(n), Ok(v)) = (HeaderName::from_bytes(name.as_bytes()), HeaderValue::from_str(value)) {
        headers.insert(n, v);
    }
}

/// How many names a header map holds, `None` for a map with infinitely many (none is).
pub open spec fn name_count(m: Map<Seq<char>, Seq<Seq<u8>>>) -> Option<nat> {
    if m.dom().finite() {
        Some(m.dom().len())
    } else {
        None
    }
}

/// http's `HeaderMap::keys_len`: the number of distinct header names the map holds (finitely
/// many).
#[verifier::external_body]
pub(crate) fn header_name_count(headers: &HeaderMap) -> (res: usize)
    ensures
        name_count(header_map(*headers)) == Some(res as nat),
{
    headers.keys_len()
}

/// Whether `value` is header text: visible ASCII characters and spaces.
pub fn header_text(value: &str) -> (res: bool)
    ensures
        res == is_header_text(value@),
{
    let cs = crate::text::chars_of(value);
    let mut i: usize = 0;
    while i < cs.len()
        invariant
            cs@ == value@,
            0 <= i <= cs.len(),
            forall|j: int| 0 <= j < i ==> (' ' <= #[trigger] cs@[j] && cs@[j] <= '~'),
        decreases cs.len() - i,
    {
        if !(' ' <= cs[i] && cs[i] <= '~') {
            return false;
        }
        i += 1;
    }
    true
}

/// The values under `name`, none when the map lacks it.
pub open spec fn values_of(m: Map<Seq<char>, Seq<Seq<u8>>>, name: Seq<char>) -> Seq<Seq<u8>> {
    if m.contains_key(name) {
        m[name]
    } else {
        Seq::empty()
    }
}

} // verus!
