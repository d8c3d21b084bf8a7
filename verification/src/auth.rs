//! Token authentication for a service: `Authorization: Bearer <token>`, or Basic auth with any
//! user and the token as password, compared in constant time; anything else is refused with a
//! `401` and a `WWW-Authenticate` challenge naming the realm.

use vstd::prelude::*;

use crate::credentials::{
    basic_scheme, credentials_match, password_is_token, scheme_parts, text_of_bytes, token_eq,
    utf8_text,
};
use crate::text::strip_prefix;

verus! {

/// What base64's streaming `read::DecoderReader` (STANDARD engine) yields when read to the
/// end over `input`, or `None` when reading fails.
pub uninterp spec fn base64_stream_decode(input: Seq<char>) -> Option<Seq<u8>>;

/// Reads `input` through base64's `read::DecoderReader` with `general_purpose::STANDARD` to
/// the end; its result is named [`base64_stream_decode`] and nothing more is claimed of it.
#[verifier::external_body]
fn decode_base64_stream(input: &str) -> (res: Option<Vec<u8>>)
    ensures
        match res {
            Some(bytes) => base64_stream_decode(input@) == Some(bytes@),
            None => base64_stream_decode(input@) is None,
        },
{
    let mut decoder = base64::read::DecoderReader::new(
        input.as_bytes(),
        &base64::engine::general_purpose::STANDARD,
    );
    let mut bytes: Vec<u8> = Vec::new();
    match std::io::Read::read_to_end(&mut decoder, &mut bytes) {
        Ok(_) => Some(bytes),
        Err(_) => None,
    }
}

/// The text that the Basic credentials of `value` decode to through the stream decoder.
pub open spec fn stream_basic_text(value: Seq<char>) -> Option<Seq<char>> {
    match strip_prefix(value, basic_scheme()) {
        Some(creds) => text_of_bytes(base64_stream_decode(creds)),
        None => None,
    }
}

/// Whether an `Authorization` value (`None`: absent or not readable as text) lets a request
/// through a layer guarding `token`.
pub open spec fn authorizes(value: Option<Seq<char>>, token: Seq<char>) -> bool {
    match value {
        Some(v) => credentials_match(v, token, stream_basic_text(v)),
        None => false,
    }
}

/// The `WWW-Authenticate` challenge of a refusal: `Bearer, Basic realm="<realm>"`.
pub open spec fn challenge_text(realm: Seq<char>) -> Seq<char> {
    "Bearer, Basic realm=\""@ + realm + "\""@
}

/// The layer lets `Authorization: Bearer <presented>` through exactly when `presented` is the
/// token, and refuses a request without an `Authorization` header.
pub proof fn lemma_bearer_decides(presented: Seq<char>, token: Seq<char>)
    ensures
        authorizes(Some(crate::credentials::bearer_scheme() + presented), token) == (presented
            == token),
        !authorizes(None, token),
{
    let v = crate::credentials::bearer_scheme() + presented;
    crate::credentials::lemma_bearer_value(presented, token, stream_basic_text(v));
}

/// Basic credentials are accepted exactly when the text they decode to is `user:password`
/// with the token as password, whatever the user.
pub proof fn lemma_basic_decides(creds: Seq<char>, token: Seq<char>)
    ensures
        authorizes(Some(basic_scheme() + creds), token) == (crate::credentials::basic_password(
            text_of_bytes(base64_stream_decode(creds)),
        ) == Some(token)),
{
    let v = basic_scheme() + creds;
    crate::credentials::lemma_basic_value(creds, token, stream_basic_text(v));
}

/// What the service does with a request.
pub enum AuthDecision {
    /// Forward the request to the inner service.
    Forward,
    /// Answer `401 Unauthorized` with body `Unauthorized` and this `WWW-Authenticate` value.
    Reject { challenge: String },
}

/// Layer that adds token authentication to a service.
#[derive(Clone)]
pub struct TokenAuthLayer {
    token: String,
    realm: String,
}

/// Service that validates token authentication in front of `inner`.
///
/// Accepts authentication via:
/// - Bearer token: `Authorization: Bearer <token>`
/// - Basic Auth: any username with the token as password
#[derive(Clone)]
pub struct TokenAuthService<S> {
    inner: S,
    token: String,
    realm: String,
}

/// The `WWW-Authenticate` challenge for `realm`.
pub fn challenge(realm: &str) -> (res: String)
    ensures
        res@ == challenge_text(realm@),
{
    let mut s = String::from_str("Bearer, Basic realm=\"");
    s.append(realm);
    s.append("\"");
    s
}

/// Decodes Basic credentials to text through the stream decoder, then UTF-8.
fn decode_basic_stream(input: &str) -> (res: Option<String>)
    ensures
        res.deep_view() == text_of_bytes(base64_stream_decode(input@)),
{
    match decode_base64_stream(input) {
        Some(bytes) => utf8_text(bytes),
        None => None,
    }
}

/// Whether an `Authorization` value authorizes against `token`.
pub fn authorization_accepted(value: Option<&str>, token: &str) -> (res: bool)
    ensures
        res == authorizes(value.deep_view(), token@),
{
    match value {
        Some(v) => {
            let (bearer, basic) = scheme_parts(v);
            match bearer {
                Some(b) => token_eq(b.as_str(), token),
                None => match basic {
                    Some(creds) => password_is_token(decode_basic_stream(creds.as_str()), token),
                    None => false,
                },
            }
        },
        None => false,
    }
}

impl TokenAuthLayer {
    /// The token this layer requires.
    pub closed spec fn token(&self) -> Seq<char> {
        self.token@
    }

    /// The realm its challenge advertises.
    pub closed spec fn realm(&self) -> Seq<char> {
        self.realm@
    }

    /// A token auth layer with the given token and the realm `mcp-core`.
    pub fn new(token: String) -> (res: TokenAuthLayer)
        ensures
            res.token() == token@,
            res.realm() == "mcp-core"@,
    {
        TokenAuthLayer { token, realm: String::from_str("mcp-core") }
    }

    /// A token auth layer with a custom realm.
    pub fn with_realm(token: String, realm: String) -> (res: TokenAuthLayer)
        ensures
            res.token() == token@,
            res.realm() == realm@,
    {
        TokenAuthLayer { token, realm }
    }

    /// Wraps `inner` in a service that checks this layer's token and realm.
    pub fn layer<S>(&self, inner: S) -> (res: TokenAuthService<S>)
        ensures
            res.token() == self.token(),
            res.realm() == self.realm(),
            res.inner() == inner,
    {
        TokenAuthService { inner, token: self.token.clone(), realm: self.realm.clone() }
    }
}

impl<S> TokenAuthService<S> {
    /// The token this service requires.
    pub closed spec fn token(&self) -> Seq<char> {
        self.token@
    }

    /// The realm its challenge advertises.
    pub closed spec fn realm(&self) -> Seq<char> {
        self.realm@
    }

    /// The wrapped service.
    pub closed spec fn inner(&self) -> S {
        self.inner
    }

    /// The wrapped service.
    pub fn inner_ref(&self) -> (res: &S)
        ensures
            *res == self.inner(),
    {
        &self.inner
    }

    /// The wrapped service, for driving it.
    pub fn inner_mut(&mut self) -> (res: &mut S)
        ensures
            *res == old(self).inner(),
            final(self).inner() == *final(res),
            final(self).token() == old(self).token(),
            final(self).realm() == old(self).realm(),
    {
        &mut self.inner
    }

    /// The decision for a request with the given `Authorization` value (`None`: absent or not
    /// readable as text): forward it when it carries the token, otherwise refuse it with the
    /// realm's challenge.
    pub fn authorize(&self, authorization: Option<&str>) -> (res: AuthDecision)
        ensures
            match res {
                AuthDecision::Forward => authorizes(authorization.deep_view(), self.token()),
                AuthDecision::Reject { challenge } => !authorizes(
                    authorization.deep_view(),
                    self.token(),
                ) && challenge@ == challenge_text(self.realm()),
            },
    {
        if authorization_accepted(authorization, self.token.as_str()) {
            AuthDecision::Forward
        } else {
            AuthDecision::Reject { challenge: challenge(self.realm.as_str()) }
        }
    }
}

} // verus!
