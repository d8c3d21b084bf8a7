//! Web login and the access check in front of the UI, the API and MCP: a session cookie (set
//! after a constant-time token check) or an `Authorization` Bearer/Basic header authorizes a
//! request; with no token configured everything is open.

use axum::http::HeaderMap;
use axum_extra::extract::cookie::{Cookie, Key, SameSite, SignedCookieJar};
use vstd::prelude::*;

use crate::credentials::{
    basic_scheme, credentials_match, password_is_token, scheme_parts, text_of_bytes, token_eq,
    utf8_text,
};
use crate::text::{chars_of, contains_chars, contains_run, strip_prefix};
use crate::web::headers::{ascii_bytes, header_map, values_of};

verus! {

#[verifier::external_type_specification]
#[verifier::external_body]
pub struct ExKey(Key);

#[verifier::external_type_specification]
#[verifier::external_body]
#[verifier::reject_recursive_types(K)]
pub struct ExSignedCookieJar<K>(SignedCookieJar<K>);

/// What a signed cookie jar holds: the name and value of each cookie whose signature verifies
/// under the jar's key (the cookies `SignedCookieJar::get` returns).
pub uninterp spec fn signed_cookies(jar: SignedCookieJar<Key>) -> Map<Seq<char>, Seq<char>>;

/// The master bytes of the key a signed cookie jar signs added cookies with and verifies the
/// request's cookies under.
pub uninterp spec fn jar_key(jar: SignedCookieJar<Key>) -> Seq<u8>;

/// The names of a jar's original cookies: those it was made with from the request (and that
/// verified), whatever was added or removed since.
pub uninterp spec fn jar_originals(jar: SignedCookieJar<Key>) -> Set<Seq<char>>;

/// What a jar sends back as `Set-Cookie` headers (its delta), by cookie name: the cookie's
/// `name=value` text, whether it is a removal (an expired, empty cookie), then its `HttpOnly`,
/// `Secure` and `SameSite` attributes and its path as they were set, `None` where unset.
/// `SameSite` is coded as in [`same_site_code`].
pub uninterp spec fn jar_delta(jar: SignedCookieJar<Key>) -> Map<Seq<char>, SetCookie>;

/// What cookie's signed jar stores as the value of a cookie with value `value` signed under the
/// key with master bytes `key`: the base64 HMAC-SHA256 of the value under the key's signing
/// half, followed by the value.
pub uninterp spec fn signed_value(key: Seq<u8>, value: Seq<char>) -> Seq<char>;

/// The `name=value` text cookie's `Cookie::encoded` display writes for a cookie, each part
/// percent-encoded; a `Set-Cookie` header starts with it and the client sends it back.
pub uninterp spec fn encoded_pair(name: Seq<char>, value: Seq<char>) -> Seq<char>;

/// A cookie name or value that needs no quoting or encoding: ASCII letters, digits, `_` and `-`.
pub open spec fn is_cookie_word(s: Seq<char>) -> bool {
    forall|i: int|
        0 <= i < s.len() ==> (('a' <= #[trigger] s[i] && s[i] <= 'z') || ('A' <= s[i] && s[i]
            <= 'Z') || ('0' <= s[i] && s[i] <= '9') || s[i] == '_' || s[i] == '-')
}

/// A cookie written as plain `name=value` text.
pub open spec fn plain_pair(name: Seq<char>, value: Seq<char>) -> Seq<char> {
    name + "="@ + value
}

/// What `SignedCookieJar::from_headers` keeps of a request whose `Cookie` header values are
/// `cookie_headers` (their bytes, in order), under the key with master bytes `key`: each cookie
/// that parses and whose signature verifies, by name, with its value.
pub uninterp spec fn verified_cookies(cookie_headers: Seq<Seq<u8>>, key: Seq<u8>) -> Map<
    Seq<char>,
    Seq<char>,
>;

/// The `Cookie` header values of a request's headers.
pub open spec fn cookie_headers(headers: Map<Seq<char>, Seq<Seq<u8>>>) -> Seq<Seq<u8>> {
    values_of(headers, "cookie"@)
}

/// axum_extra's `SignedCookieJar::from_headers` with the cookie `Key` that `Key::from` makes of
/// `key`. `Key::from` panics on fewer than 64 bytes and keeps the first 64, so the jar's key
/// has master bytes `key`; the jar holds the request's cookies that verify under it. Three
/// cases the source settles: no `Cookie` header gives no cookie; a lone `Cookie` header that is
/// the text a jar under the same key sent for a cookie (name and value plain words) gives
/// exactly that cookie back, verified; and a lone plain `name=value` whose value is shorter than
/// the 44-character digest never verifies.
#[verifier::external_body]
fn jar_from_headers(headers: &HeaderMap, key: &Vec<u8>) -> (res: SignedCookieJar<Key>)
    requires
        key@.len() == 64,
    ensures
        jar_key(res) == key@,
        signed_cookies(res) == verified_cookies(cookie_headers(header_map(*headers)), key@),
        jar_originals(res) == verified_cookies(cookie_headers(header_map(*headers)), key@).dom(),
        jar_delta(res).dom() == Set::<Seq<char>>::empty(),
        cookie_headers(header_map(*headers)).len() == 0 ==> signed_cookies(res).dom()
            == Set::<Seq<char>>::empty(),
        forall|n: Seq<char>, v: Seq<char>|
            #![trigger encoded_pair(n, signed_value(key@, v))]
            0 < n.len() && is_cookie_word(n) && is_cookie_word(v) && cookie_headers(
                header_map(*headers),
            ) == seq![ascii_bytes(encoded_pair(n, signed_value(key@, v)))] ==> signed_cookies(res)
                == map![n => v],
        forall|n: Seq<char>, v: Seq<char>|
            #![trigger plain_pair(n, v)]
            0 < n.len() && is_cookie_word(n) && is_cookie_word(v) && v.len() < 44
                && cookie_headers(header_map(*headers)) == seq![ascii_bytes(plain_pair(n, v))]
                ==> signed_cookies(res).dom() == Set::<Seq<char>>::empty(),
{
    SignedCookieJar::from_headers(headers, Key::from(key.as_slice()))
}

/// axum_extra's `SignedCookieJar::get(name)`, reduced to the cookie's value: `Some` exactly
/// when the jar holds a cookie of that name with a valid signature.
#[verifier::external_body]
fn signed_cookie_value(jar: &SignedCookieJar<Key>, name: &str) -> (res: Option<String>)
    ensures
        match res {
            Some(v) => signed_cookies(*jar).contains_key(name@) && v@ == signed_cookies(*jar)[name@],
            None => !signed_cookies(*jar).contains_key(name@),
        },
{
    match jar.get(name) {
        Some(cookie) => Some(cookie.value().to_owned()),
        None => None,
    }
}

/// axum_extra's `SignedCookieJar::add` of the cookie that cookie's `Cookie::build` makes of `c`
/// (name, value, and the attributes `c` gives): the jar then holds `c`'s value under its name,
/// signed with the jar's key, which stays the same, and sends that cookie, its value signed
/// under the key, with exactly those attributes in place of whatever it was to send under the
/// name.
#[verifier::external_body]
fn add_signed_cookie(jar: SignedCookieJar<Key>, c: SessionCookie) -> (res: SignedCookieJar<Key>)
    ensures
        signed_cookies(res) == signed_cookies(jar).insert(c.name@, c.value@),
        jar_key(res) == jar_key(jar),
        jar_originals(res) == jar_originals(jar),
        jar_delta(res) == jar_delta(jar).insert(c.name@, set_entry(jar_key(jar), c)),
{
    let same_site = match c.same_site {
        CookieSameSite::Strict => SameSite::Strict,
        CookieSameSite::Lax => SameSite::Lax,
        CookieSameSite::Unrestricted => SameSite::None,
    };
    let cookie = Cookie::build((c.name, c.value)).http_only(c.http_only).secure(c.secure);
    jar.add(cookie.same_site(same_site).path(c.path).build())
}

/// axum_extra's `SignedCookieJar::remove` of the cookie named `name` at `path`: the jar no
/// longer holds a cookie of that name and keeps its key. Where the request carried that cookie
/// the jar sends a removal of it at `path`; otherwise it drops whatever it was to send under
/// the name.
#[verifier::external_body]
fn remove_cookie(jar: SignedCookieJar<Key>, name: String, path: String) -> (res: SignedCookieJar<
    Key,
>)
    ensures
        signed_cookies(res) == signed_cookies(jar).remove(name@),
        jar_key(res) == jar_key(jar),
        jar_originals(res) == jar_originals(jar),
        jar_delta(res) == (if jar_originals(jar).contains(name@) {
            jar_delta(jar).insert(name@, removal_entry(name@, path@))
        } else {
            jar_delta(jar).remove(name@)
        }),
{
    jar.remove(Cookie::build(name).path(path).build())
}

/// What base64's STANDARD engine (`Engine::decode`, padded alphabet) decodes `input` to, or
/// `None` when it rejects it.
pub uninterp spec fn base64_standard_decode(input: Seq<char>) -> Option<Seq<u8>>;

/// base64 `Engine::decode` with `general_purpose::STANDARD`; its result is named
/// [`base64_standard_decode`] and nothing more is claimed of it.
#[verifier::external_body]
fn decode_base64_standard(input: &str) -> (res: Option<Vec<u8>>)
    ensures
        match res {
            Some(bytes) => base64_standard_decode(input@) == Some(bytes@),
            None => base64_standard_decode(input@) is None,
        },
{
    match base64::Engine::decode(&base64::engine::general_purpose::STANDARD, input) {
        Ok(bytes) => Some(bytes),
        Err(_) => None,
    }
}

/// The master bytes of a fresh cookie-signing key (cookie's `Key::generate`, random per call,
/// read by `Key::master`): a `Key` holds exactly 64 bytes, and nothing else is claimed of them.
#[verifier::external_body]
fn generate_key() -> (res: Vec<u8>)
    ensures
        res@.len() == 64,
{
    Key::generate().master().to_vec()
}

/// The text that the Basic credentials of `value` decode to, if any.
pub open spec fn decoded_basic_text(value: Seq<char>) -> Option<Seq<char>> {
    match strip_prefix(value, basic_scheme()) {
        Some(creds) => text_of_bytes(base64_standard_decode(creds)),
        None => None,
    }
}

/// Whether an `Authorization` value (absent, or not readable as text: `None`) authorizes
/// against `token`.
pub open spec fn header_authorizes(value: Option<Seq<char>>, token: Seq<char>) -> bool {
    match value {
        Some(v) => credentials_match(v, token, decoded_basic_text(v)),
        None => false,
    }
}

/// The `sec-fetch-mode` value of a top-level navigation.
pub open spec fn navigate_mode() -> Seq<char> {
    seq!['n', 'a', 'v', 'i', 'g', 'a', 't', 'e']
}

/// The media type whose presence in `Accept` marks a browser navigation.
pub open spec fn html_media_type() -> Seq<char> {
    seq!['t', 'e', 'x', 't', '/', 'h', 't', 'm', 'l']
}

/// A top-level browser navigation: Fetch metadata decides when present, otherwise an
/// `Accept` that mentions `text/html`.
pub open spec fn navigation(sec_fetch_mode: Option<Seq<char>>, accept: Option<Seq<char>>) -> bool {
    match sec_fetch_mode {
        Some(mode) => mode == navigate_mode(),
        None => match accept {
            Some(a) => contains_run(a, html_media_type()),
            None => false,
        },
    }
}

/// The access check, the login check and the token layer agree on bearer credentials: `Bearer
/// <presented>` authorizes exactly when `presented` is the token, and so does the layer.
pub proof fn lemma_bearer_agrees(presented: Seq<char>, token: Seq<char>)
    ensures
        header_authorizes(Some(crate::credentials::bearer_scheme() + presented), token) == (
        presented == token),
        header_authorizes(Some(crate::credentials::bearer_scheme() + presented), token)
            == crate::auth::authorizes(Some(crate::credentials::bearer_scheme() + presented), token),
        !header_authorizes(None, token),
{
    let v = crate::credentials::bearer_scheme() + presented;
    crate::credentials::lemma_bearer_value(presented, token, decoded_basic_text(v));
    crate::auth::lemma_bearer_decides(presented, token);
}

/// Without Fetch metadata a request is a browser navigation exactly when its `Accept` mentions
/// `text/html`, and never without an `Accept`. So with a token configured, a request without
/// credentials is sent to the login page only then, and anything else, such as an API client's
/// `Accept: */*`, is answered `401`.
pub proof fn lemma_accept_decides(
    accept: Seq<char>,
    token: Seq<char>,
    authorization: Option<Seq<char>>,
)
    ensures
        navigation(None, Some(accept)) == contains_run(accept, "text/html"@),
        !navigation(None, None),
        !header_authorizes(authorization, token) ==> access_decision(
            Some(token),
            false,
            authorization,
            None,
            Some(accept),
        ) == (if contains_run(accept, "text/html"@) {
            AccessDecision::RedirectToLogin
        } else {
            AccessDecision::Unauthorized
        }),
        !contains_run(accept, "text/html"@) ==> access_decision(
            Some(token),
            false,
            None,
            None,
            Some(accept),
        ) == AccessDecision::Unauthorized,
        access_decision(Some(token), false, None, None, Some("*/*"@)) == AccessDecision::Unauthorized,
{
    reveal_strlit("text/html");
    reveal_strlit("*/*");
    assert(html_media_type() =~= "text/html"@);
    assert(!contains_run("*/*"@, "text/html"@));
}

/// Fetch metadata beats the `Accept` heuristic: a request whose `sec-fetch-mode` is present
/// is a navigation exactly when that mode is `navigate`, whatever it accepts.
pub proof fn lemma_fetch_metadata_decides(mode: Seq<char>, accept: Option<Seq<char>>)
    ensures
        navigation(Some(mode), accept) == (mode == navigate_mode()),
{
}

/// Decodes Basic credentials to text: base64 (STANDARD), then UTF-8.
fn decode_basic(input: &str) -> (res: Option<String>)
    ensures
        res.deep_view() == text_of_bytes(base64_standard_decode(input@)),
{
    match decode_base64_standard(input) {
        Some(bytes) => utf8_text(bytes),
        None => None,
    }
}

/// Whether an `Authorization` value carries `Bearer <token>` or Basic credentials with the
/// token as password (any user). Both comparisons are constant-time.
pub fn header_authorized(value: Option<&str>, token: &str) -> (res: bool)
    ensures
        res == header_authorizes(value.deep_view(), token@),
{
    match value {
        Some(v) => {
            let (bearer, basic) = scheme_parts(v);
            match bearer {
                Some(b) => token_eq(b.as_str(), token),
                None => match basic {
                    Some(creds) => password_is_token(decode_basic(creds.as_str()), token),
                    None => false,
                },
            }
        },
        None => false,
    }
}

/// Whether a request is a top-level browser navigation (redirected to the login page when it
/// fails the access check) rather than an API/XHR call (answered `401`). `None` stands for a header
/// that is absent or not readable as text.
pub fn is_navigation(sec_fetch_mode: Option<&str>, accept: Option<&str>) -> (res: bool)
    ensures
        res == navigation(sec_fetch_mode.deep_view(), accept.deep_view()),
{
    match sec_fetch_mode {
        Some(mode) => {
            let m = chars_of(mode);
            let want = vec!['n', 'a', 'v', 'i', 'g', 'a', 't', 'e'];
            assert(want@ =~= navigate_mode());
            crate::text::chars_equal(&m, &want)
        },
        None => match accept {
            Some(a) => {
                let cs = chars_of(a);
                let html = vec!['t', 'e', 'x', 't', '/', 'h', 't', 'm', 'l'];
                assert(html@ =~= html_media_type());
                contains_chars(&cs, &html)
            },
            None => false,
        },
    }
}

/// What the access check does with a request.
#[derive(Clone, Copy, Debug, PartialEq, Eq, Structural)]
pub enum AccessDecision {
    /// Pass the request on.
    Allow,
    /// Redirect to `/` (the landing/login page): a browser navigation without credentials.
    RedirectToLogin,
    /// Answer `401`: an API or MCP call without credentials.
    Unauthorized,
}

/// What `POST /login` answers.
#[derive(Clone, Copy, Debug, PartialEq, Eq, Structural)]
pub enum LoginOutcome {
    /// No token is configured: redirect to `/ui/` without a cookie.
    Open,
    /// The token matched: set the session cookie and redirect to `/ui/`.
    SignedIn,
    /// The token did not match: `401`, no cookie.
    Rejected,
}

/// A cookie's `SameSite` attribute.
#[derive(Clone, Copy, Debug, PartialEq, Eq, Structural)]
pub enum CookieSameSite {
    /// Sent only with same-site requests.
    Strict,
    /// Also sent with top-level cross-site navigations.
    Lax,
    /// Sent with every request (`SameSite=None`).
    Unrestricted,
}

/// The session cookie `POST /login` sets on success: signed with the process key, and
/// hardened (`HttpOnly`, `Secure`, `SameSite=Strict`, `Path=/`).
pub struct SessionCookie {
    pub name: String,
    pub value: String,
    pub http_only: bool,
    pub secure: bool,
    pub same_site: CookieSameSite,
    pub path: String,
}

/// A `Set-Cookie` a jar sends: its `name=value` text, whether it is a removal, then `HttpOnly`,
/// `Secure`, the `SameSite` code and the path, each `None` where unset.
pub type SetCookie = (Seq<char>, bool, Option<bool>, Option<bool>, Option<int>, Option<Seq<char>>);

/// The code of a `SameSite` attribute in [`jar_delta`]: `Strict` 0, `Lax` 1, `None` 2.
pub open spec fn same_site_code(s: CookieSameSite) -> int {
    match s {
        CookieSameSite::Strict => 0,
        CookieSameSite::Lax => 1,
        CookieSameSite::Unrestricted => 2,
    }
}

/// The `Set-Cookie` a jar whose key has master bytes `key` sends for a cookie set as `c` says:
/// its value signed, with `c`'s attributes.
pub open spec fn set_entry(key: Seq<u8>, c: SessionCookie) -> SetCookie {
    (
        encoded_pair(c.name@, signed_value(key, c.value@)),
        false,
        Some(c.http_only),
        Some(c.secure),
        Some(same_site_code(c.same_site)),
        Some(c.path@),
    )
}

/// The `Set-Cookie` sent for the removal of cookie `name` at `path`: expired and empty, with
/// only the path set.
pub open spec fn removal_entry(name: Seq<char>, path: Seq<char>) -> SetCookie {
    (encoded_pair(name, Seq::empty()), true, None, None, None, Some(path))
}

/// The `name=value` text of the session cookie signed under the key with master bytes `key`.
pub open spec fn session_pair(key: Seq<u8>) -> Seq<char> {
    encoded_pair(session_cookie_name(), signed_value(key, session_cookie_value()))
}

/// The `Set-Cookie` of the session cookie signed under `key`: `HttpOnly`, `Secure`,
/// `SameSite=Strict`, `Path=/`.
pub open spec fn session_set_cookie(key: Seq<u8>) -> SetCookie {
    (session_pair(key), false, Some(true), Some(true), Some(0), Some("/"@))
}

/// The name of the session cookie.
pub open spec fn session_cookie_name() -> Seq<char> {
    "mcp_session"@
}

/// The value of the session cookie.
pub open spec fn session_cookie_value() -> Seq<char> {
    "ok"@
}

/// The session cookie set after a successful login.
pub fn session_cookie() -> (res: SessionCookie)
    ensures
        res.name@ == session_cookie_name(),
        res.value@ == session_cookie_value(),
        res.http_only,
        res.secure,
        res.same_site == CookieSameSite::Strict,
        res.path@ == "/"@,
{
    SessionCookie {
        name: String::from_str("mcp_session"),
        value: String::from_str("ok"),
        http_only: true,
        secure: true,
        same_site: CookieSameSite::Strict,
        path: String::from_str("/"),
    }
}

/// The access decision for a request, given the configured token and whether the request
/// carries a valid session cookie.
pub open spec fn access_decision(
    token: Option<Seq<char>>,
    has_session: bool,
    authorization: Option<Seq<char>>,
    sec_fetch_mode: Option<Seq<char>>,
    accept: Option<Seq<char>>,
) -> AccessDecision {
    match token {
        None => AccessDecision::Allow,
        Some(t) => if has_session || header_authorizes(authorization, t) {
            AccessDecision::Allow
        } else if navigation(sec_fetch_mode, accept) {
            AccessDecision::RedirectToLogin
        } else {
            AccessDecision::Unauthorized
        },
    }
}

/// What `POST /login` answers for the form token `presented`.
pub open spec fn login_outcome(token: Option<Seq<char>>, presented: Seq<char>) -> LoginOutcome {
    match token {
        None => LoginOutcome::Open,
        Some(t) => if presented == t {
            LoginOutcome::SignedIn
        } else {
            LoginOutcome::Rejected
        },
    }
}

/// The session cookie's name and value are plain cookie words, and the value is shorter than a
/// signature digest.
proof fn lemma_session_words()
    ensures
        0 < session_cookie_name().len(),
        is_cookie_word(session_cookie_name()),
        is_cookie_word(session_cookie_value()),
        session_cookie_value().len() < 44,
{
    reveal_strlit("mcp_session");
    reveal_strlit("ok");
}

/// Whether cookies that verified under the signing key hold a session.
pub open spec fn holds_session(cookies: Map<Seq<char>, Seq<char>>) -> bool {
    cookies.contains_key(session_cookie_name())
}

/// Shared web-auth state: the optional token plus the per-process cookie signing key.
///
/// No token leaves the app open. The signing key is random per process, so a restart
/// invalidates existing sessions.
pub struct WebAuth {
    token: Option<String>,
    key: Vec<u8>,
}

/// The `POST /login` form body.
pub struct LoginForm {
    pub token: String,
}

impl WebAuth {
    /// A signing key is a full cookie key: 64 bytes.
    #[verifier::type_invariant]
    spec fn full_key(&self) -> bool {
        self.key@.len() == 64
    }

    /// The configured token, if any.
    pub closed spec fn token(&self) -> Option<Seq<char>> {
        self.token.deep_view()
    }

    /// The master bytes of the key this state signs and verifies session cookies with.
    pub closed spec fn signing_key(&self) -> Seq<u8> {
        self.key@
    }

    /// Web auth for the optional configured token, with a fresh signing key.
    pub fn new(token: Option<&str>) -> (res: WebAuth)
        ensures
            res.token() == token.deep_view(),
            res.signing_key().len() == 64,
    {
        let token = match token {
            Some(t) => Some(t.to_owned()),
            None => None,
        };
        WebAuth { token, key: generate_key() }
    }

    /// Whether a token is configured, i.e. login is required.
    pub fn auth_required(&self) -> (res: bool)
        ensures
            res == self.token() is Some,
    {
        self.token.is_some()
    }

    /// The signed cookie jar of a request with these headers, under this state's key: it
    /// holds the request's cookies whose signatures verify under that key, and signs what is
    /// added to it with the same key.
    pub fn request_jar(&self, headers: &HeaderMap) -> (res: SignedCookieJar<Key>)
        ensures
            jar_key(res) == self.signing_key(),
            signed_cookies(res) == verified_cookies(
                cookie_headers(header_map(*headers)),
                self.signing_key(),
            ),
            jar_originals(res) == verified_cookies(
                cookie_headers(header_map(*headers)),
                self.signing_key(),
            ).dom(),
            jar_delta(res).dom() == Set::<Seq<char>>::empty(),
            cookie_headers(header_map(*headers)).len() == 0 ==> signed_cookies(res).dom()
                == Set::<Seq<char>>::empty(),
            forall|n: Seq<char>, v: Seq<char>|
                #![trigger encoded_pair(n, signed_value(self.signing_key(), v))]
                0 < n.len() && is_cookie_word(n) && is_cookie_word(v) && cookie_headers(
                    header_map(*headers),
                ) == seq![ascii_bytes(encoded_pair(n, signed_value(self.signing_key(), v)))]
                    ==> signed_cookies(res) == map![n => v],
            forall|n: Seq<char>, v: Seq<char>|
                #![trigger plain_pair(n, v)]
                0 < n.len() && is_cookie_word(n) && is_cookie_word(v) && v.len() < 44
                    && cookie_headers(header_map(*headers)) == seq![ascii_bytes(plain_pair(n, v))]
                    ==> signed_cookies(res).dom() == Set::<Seq<char>>::empty(),
    {
        proof {
            use_type_invariant(self);
        }
        jar_from_headers(headers, &self.key)
    }

    /// The access decision for a request: open when no token is configured; allowed with a
    /// valid session cookie (`has_session`) or a valid `Authorization` header; otherwise a
    /// browser navigation is sent to the login page and anything else gets `401`.
    pub fn check_access(
        &self,
        has_session: bool,
        authorization: Option<&str>,
        sec_fetch_mode: Option<&str>,
        accept: Option<&str>,
    ) -> (res: AccessDecision)
        ensures
            res == access_decision(
                self.token(),
                has_session,
                authorization.deep_view(),
                sec_fetch_mode.deep_view(),
                accept.deep_view(),
            ),
    {
        match &self.token {
            None => AccessDecision::Allow,
            Some(t) => {
                if has_session || header_authorized(authorization, t.as_str()) {
                    AccessDecision::Allow
                } else if is_navigation(sec_fetch_mode, accept) {
                    AccessDecision::RedirectToLogin
                } else {
                    AccessDecision::Unauthorized
                }
            },
        }
    }

    /// The access decision for a request with these headers: a session is present when one of
    /// its `Cookie` headers carries the session cookie signed with this state's key.
    /// `authorization`, `sec_fetch_mode` and `accept` are those headers' text (`None` when
    /// absent or not readable as text).
    pub fn check_request(
        &self,
        headers: &HeaderMap,
        authorization: Option<&str>,
        sec_fetch_mode: Option<&str>,
        accept: Option<&str>,
    ) -> (res: AccessDecision)
        ensures
            res == access_decision(
                self.token(),
                holds_session(
                    verified_cookies(cookie_headers(header_map(*headers)), self.signing_key()),
                ),
                authorization.deep_view(),
                sec_fetch_mode.deep_view(),
                accept.deep_view(),
            ),
            cookie_headers(header_map(*headers)) == seq![ascii_bytes(session_pair(self.signing_key()))]
                ==> res == AccessDecision::Allow,
            cookie_headers(header_map(*headers)) == seq![
                ascii_bytes(plain_pair(session_cookie_name(), session_cookie_value())),
            ] ==> res == access_decision(
                self.token(),
                false,
                authorization.deep_view(),
                sec_fetch_mode.deep_view(),
                accept.deep_view(),
            ),
            cookie_headers(header_map(*headers)).len() == 0 ==> res == access_decision(
                self.token(),
                false,
                authorization.deep_view(),
                sec_fetch_mode.deep_view(),
                accept.deep_view(),
            ),
    {
        let jar = self.request_jar(headers);
        proof {
            lemma_session_words();
            assert(map![session_cookie_name() => session_cookie_value()].contains_key(session_cookie_name()));
        }
        let has_session = match signed_cookie_value(&jar, "mcp_session") {
            Some(_) => true,
            None => false,
        };
        self.check_access(has_session, authorization, sec_fetch_mode, accept)
    }

    /// What `POST /login` with the form token `presented` answers; the comparison is
    /// constant-time.
    pub fn login(&self, presented: &str) -> (res: LoginOutcome)
        ensures
            res == login_outcome(self.token(), presented@),
    {
        match &self.token {
            None => LoginOutcome::Open,
            Some(t) => if token_eq(presented, t.as_str()) {
                LoginOutcome::SignedIn
            } else {
                LoginOutcome::Rejected
            },
        }
    }

    /// `POST /login` on the request's cookie jar: on success the jar comes back with the
    /// session cookie added (signed with the jar's key, which `request_jar` makes this state's
    /// key); otherwise it comes back as it was.
    pub fn sign_in(&self, jar: SignedCookieJar<Key>, presented: &str) -> (res: (
        LoginOutcome,
        SignedCookieJar<Key>,
    ))
        ensures
            res.0 == login_outcome(self.token(), presented@),
            jar_key(res.1) == jar_key(jar),
            res.0 == LoginOutcome::SignedIn ==> signed_cookies(res.1) == signed_cookies(jar).insert(
                session_cookie_name(),
                session_cookie_value(),
            ),
            res.0 == LoginOutcome::SignedIn ==> jar_delta(res.1) == jar_delta(jar).insert(
                session_cookie_name(),
                session_set_cookie(jar_key(jar)),
            ),
            jar_originals(res.1) == jar_originals(jar),
            res.0 != LoginOutcome::SignedIn ==> res.1 == jar,
    {
        let outcome = self.login(presented);
        match outcome {
            LoginOutcome::SignedIn => (outcome, add_signed_cookie(jar, session_cookie())),
            _ => (outcome, jar),
        }
    }
}

/// `POST /logout` on the request's cookie jar: the session cookie is removed (and expired in
/// the response); every other cookie and the jar's key stay.
pub fn sign_out(jar: SignedCookieJar<Key>) -> (res: SignedCookieJar<Key>)
    ensures
        signed_cookies(res) == signed_cookies(jar).remove(session_cookie_name()),
        jar_key(res) == jar_key(jar),
        jar_originals(res) == jar_originals(jar),
        jar_delta(res) == (if jar_originals(jar).contains(session_cookie_name()) {
            jar_delta(jar).insert(session_cookie_name(), removal_entry(session_cookie_name(), "/"@))
        } else {
            jar_delta(jar).remove(session_cookie_name())
        }),
{
    let c = session_cookie();
    remove_cookie(jar, c.name, c.path)
}

/// Signing in and then out leaves no session, and of the other cookies exactly those the
/// jar held before: a sign-out undoes a sign-in.
pub proof fn lemma_sign_out_undoes_sign_in(cookies: Map<Seq<char>, Seq<char>>)
    ensures
        cookies.insert(session_cookie_name(), session_cookie_value()).remove(session_cookie_name())
            == cookies.remove(session_cookie_name()),
        !holds_session(cookies.remove(session_cookie_name())),
{
    assert(cookies.insert(session_cookie_name(), session_cookie_value()).remove(
        session_cookie_name(),
    ) =~= cookies.remove(session_cookie_name()));
}

/// A session admits every request while a token is configured, whatever its other headers
/// say; a signed-in jar holds a session.
pub proof fn lemma_session_admits(
    token: Seq<char>,
    cookies: Map<Seq<char>, Seq<char>>,
    authorization: Option<Seq<char>>,
    sec_fetch_mode: Option<Seq<char>>,
    accept: Option<Seq<char>>,
)
    ensures
        holds_session(cookies.insert(session_cookie_name(), session_cookie_value())),
        holds_session(cookies) ==> access_decision(
            Some(token),
            holds_session(cookies),
            authorization,
            sec_fetch_mode,
            accept,
        ) == AccessDecision::Allow,
{
}

} // verus!
