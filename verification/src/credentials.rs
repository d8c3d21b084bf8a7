//! What an `Authorization` header value proves: `Bearer <token>`, or Basic credentials whose
//! password (anything after the first `:` of the decoded `user:password`) is the token.

use vstd::prelude::*;
use vstd::utf8::{decode_utf8, valid_utf8};

use crate::text::{
    chars_of, split_once, split_once_chars, string_of, strip_prefix, strip_prefix_chars,
};

verus! {

/// The `Bearer ` scheme prefix.
pub open spec fn bearer_scheme() -> Seq<char> {
    seq!['B', 'e', 'a', 'r', 'e', 'r', ' ']
}

/// The `Basic ` scheme prefix.
pub open spec fn basic_scheme() -> Seq<char> {
    seq!['B', 'a', 's', 'i', 'c', ' ']
}

/// The text that decoded Basic credentials stand for: the bytes read as UTF-8, when they are.
pub open spec fn text_of_bytes(bytes: Option<Seq<u8>>) -> Option<Seq<char>> {
    match bytes {
        Some(b) => if valid_utf8(b) {
            Some(decode_utf8(b))
        } else {
            None
        },
        None => None,
    }
}

/// The password carried by decoded Basic credentials `user:password`.
pub open spec fn basic_password(text: Option<Seq<char>>) -> Option<Seq<char>> {
    match text {
        Some(t) => match split_once(t, ':') {
            Some((_user, pass)) => Some(pass),
            None => None,
        },
        None => None,
    }
}

/// Whether the header value `value` proves knowledge of `token`, where `basic_text` is the
/// text its Basic credentials decode to (`None` when they do not decode).
pub open spec fn credentials_match(
    value: Seq<char>,
    token: Seq<char>,
    basic_text: Option<Seq<char>>,
) -> bool {
    match strip_prefix(value, bearer_scheme()) {
        Some(presented) => presented == token,
        None => match strip_prefix(value, basic_scheme()) {
            Some(_) => basic_password(basic_text) == Some(token),
            None => false,
        },
    }
}

/// A `Bearer ` value carries exactly the secret after the scheme.
pub proof fn lemma_bearer_value(presented: Seq<char>, token: Seq<char>, basic_text: Option<Seq<char>>)
    ensures
        strip_prefix(bearer_scheme() + presented, bearer_scheme()) == Some(presented),
        credentials_match(bearer_scheme() + presented, token, basic_text) == (presented == token),
{
    let v = bearer_scheme() + presented;
    assert(v.take(bearer_scheme().len() as int) =~= bearer_scheme());
    assert(v.skip(bearer_scheme().len() as int) =~= presented);
}

/// A `Basic ` value proves the token exactly when its decoded credentials' password is it.
pub proof fn lemma_basic_value(creds: Seq<char>, token: Seq<char>, basic_text: Option<Seq<char>>)
    ensures
        strip_prefix(basic_scheme() + creds, basic_scheme()) == Some(creds),
        credentials_match(basic_scheme() + creds, token, basic_text) == (basic_password(basic_text)
            == Some(token)),
{
    let v = basic_scheme() + creds;
    assert(v.take(basic_scheme().len() as int) =~= basic_scheme());
    assert(v.skip(basic_scheme().len() as int) =~= creds);
    assert(v[1] == 'a');
    assert(bearer_scheme()[1] == 'e');
    assert(v.take(bearer_scheme().len() as int) != bearer_scheme() || v.len() < bearer_scheme().len()) by {
        if v.len() >= bearer_scheme().len() {
            assert(v.take(bearer_scheme().len() as int)[1] == 'a');
        }
    }
}

/// Constant-time comparison of a presented secret with the configured token
/// (subtle's `ConstantTimeEq::ct_eq` on the two byte strings). The comparison is 1 exactly
/// when the byte strings are equal, and UTF-8 encoding is one-to-one, so the result is the
/// equality of the two strings.
#[verifier::external_body]
pub(crate) fn token_eq(presented: &str, token: &str) -> (res: bool)
    ensures
        res == (presented@ == token@),
{
    subtle::ConstantTimeEq::ct_eq(presented.as_bytes(), token.as_bytes()).into()
}

/// Reads bytes as UTF-8 text (std `String::from_utf8`): `Some` exactly when the bytes are
/// valid UTF-8, holding the characters they encode.
#[verifier::external_body]
pub(crate) fn utf8_text(bytes: Vec<u8>) -> (res: Option<String>)
    ensures
        match res {
            Some(s) => valid_utf8(bytes@) && s@ == decode_utf8(bytes@),
            None => !valid_utf8(bytes@),
        },
{
    match String::from_utf8(bytes) {
        Ok(s) => Some(s),
        Err(_) => None,
    }
}

/// Whether decoded Basic credentials carry `token` as their password.
pub(crate) fn password_is_token(text: Option<String>, token: &str) -> (res: bool)
    ensures
        res == (basic_password(match text {
            Some(t) => Some(t@),
            None => None,
        }) == Some(token@)),
{
    match text {
        Some(t) => {
            let cs = chars_of(t.as_str());
            match split_once_chars(&cs, ':') {
                Some((_user, pass)) => {
                    let pass = string_of(&pass);
                    token_eq(pass.as_str(), token)
                },
                None => false,
            }
        },
        None => false,
    }
}

/// The scheme-specific parts of an `Authorization` value: the bearer secret after `Bearer `,
/// otherwise the Basic credentials after `Basic ` (both `None` when neither scheme is used).
pub(crate) fn scheme_parts(value: &str) -> (res: (Option<String>, Option<String>))
    ensures
        match strip_prefix(value@, bearer_scheme()) {
            Some(b) => res.0 matches Some(s) && s@ == b,
            None => res.0 is None && match strip_prefix(value@, basic_scheme()) {
                Some(c) => res.1 matches Some(s) && s@ == c,
                None => res.1 is None,
            },
        },
{
    let cs = chars_of(value);
    let bearer = vec!['B', 'e', 'a', 'r', 'e', 'r', ' '];
    let basic = vec!['B', 'a', 's', 'i', 'c', ' '];
    assert(bearer@ =~= bearer_scheme());
    assert(basic@ =~= basic_scheme());
    match strip_prefix_chars(&cs, &bearer) {
        Some(b) => (Some(string_of(&b)), None),
        None => match strip_prefix_chars(&cs, &basic) {
            Some(c) => (None, Some(string_of(&c))),
            None => (None, None),
        },
    }
}

} // verus!
