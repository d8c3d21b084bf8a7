//! The web harness's decisions: the session access check and login, the landing page, the security
//! headers every response carries, the opt-in token protection, and the typed catalog and
//! search wire types.

use vstd::prelude::*;

use axum::http::HeaderMap;

use crate::auth::TokenAuthLayer;
use crate::web::headers::{
    ascii_bytes, has_room, header_map, header_name_count, header_text, insert_header, is_header_name,
    is_header_text,
};

pub mod catalog;
pub mod data_catalog;
pub mod headers;
pub mod landing;
pub mod search;
pub mod session;
pub mod shell;

verus! {

/// The baseline Content-Security-Policy. With the UI shell's import-map hash (`sha256-...`)
/// `script-src` also admits exactly that inline script; without it no inline script is
/// legitimate at all.
pub open spec fn csp_text(script_hash: Option<Seq<char>>) -> Seq<char> {
    match script_hash {
        Some(h) => "script-src 'self' '"@ + h
            + "'; object-src 'none'; base-uri 'self'; frame-ancestors 'none'; form-action 'self'"@,
        None => "script-src 'self'; object-src 'none'; base-uri 'self'; frame-ancestors 'none'; form-action 'self'"@,
    }
}

/// The security headers every response carries, as (name, value) pairs.
pub open spec fn security_header_list(script_hash: Option<Seq<char>>) -> Seq<(Seq<char>, Seq<char>)> {
    seq![
        ("x-content-type-options"@, "nosniff"@),
        ("x-frame-options"@, "DENY"@),
        ("referrer-policy"@, "no-referrer"@),
        ("content-security-policy"@, csp_text(script_hash)),
        ("permissions-policy"@, "camera=(), microphone=(), geolocation=(), payment=()"@),
    ]
}

/// A header: its name and value.
pub struct HeaderPair {
    pub name: String,
    pub value: String,
}

/// The view of a list of headers as (name, value) pairs.
pub open spec fn header_pairs(hs: Seq<HeaderPair>) -> Seq<(Seq<char>, Seq<char>)> {
    hs.map_values(|h: HeaderPair| (h.name@, h.value@))
}

fn header(name: &str, value: String) -> (res: HeaderPair)
    ensures
        res.name@ == name@,
        res.value@ == value@,
{
    HeaderPair { name: name.to_owned(), value }
}

/// The Content-Security-Policy value for the given import-map hash.
pub fn content_security_policy(script_hash: Option<&str>) -> (res: String)
    ensures
        res@ == csp_text(script_hash.deep_view()),
{
    match script_hash {
        Some(h) => {
            let mut s = String::from_str("script-src 'self' '");
            s.append(h);
            s.append(
                "'; object-src 'none'; base-uri 'self'; frame-ancestors 'none'; form-action 'self'",
            );
            s
        },
        None => String::from_str(
            "script-src 'self'; object-src 'none'; base-uri 'self'; frame-ancestors 'none'; form-action 'self'",
        ),
    }
}

/// The baseline security headers added to every response: `nosniff`, `DENY` framing,
/// `no-referrer`, the CSP and a restrictive Permissions-Policy.
pub fn security_headers(script_hash: Option<&str>) -> (res: Vec<HeaderPair>)
    ensures
        header_pairs(res@) == security_header_list(script_hash.deep_view()),
{
    let mut v: Vec<HeaderPair> = Vec::new();
    v.push(header("x-content-type-options", String::from_str("nosniff")));
    v.push(header("x-frame-options", String::from_str("DENY")));
    v.push(header("referrer-policy", String::from_str("no-referrer")));
    v.push(header("content-security-policy", content_security_policy(script_hash)));
    v.push(
        header(
            "permissions-policy",
            String::from_str("camera=(), microphone=(), geolocation=(), payment=()"),
        ),
    );
    assert(header_pairs(v@) =~= security_header_list(script_hash.deep_view()));
    v
}

/// What a header map holds after each (name, value) pair of `pairs` is inserted in turn:
/// each name holds just the last value given for it, every earlier value dropped.
pub open spec fn with_headers(
    m: Map<Seq<char>, Seq<Seq<u8>>>,
    pairs: Seq<(Seq<char>, Seq<char>)>,
) -> Map<Seq<char>, Seq<Seq<u8>>>
    decreases pairs.len(),
{
    if pairs.len() == 0 {
        m
    } else {
        with_headers(m, pairs.drop_last()).insert(pairs.last().0, seq![ascii_bytes(pairs.last().1)])
    }
}

/// The names of the security headers.
pub open spec fn security_header_names() -> Set<Seq<char>> {
    set![
        "x-content-type-options"@,
        "x-frame-options"@,
        "referrer-policy"@,
        "content-security-policy"@,
        "permissions-policy"@,
    ]
}

/// Every security header is a valid header name with valid header text, given a hash that is
/// valid header text.
proof fn lemma_security_headers_valid(script_hash: Option<Seq<char>>)
    requires
        match script_hash {
            Some(h) => is_header_text(h),
            None => true,
        },
    ensures
        security_header_list(script_hash).len() == 5,
        forall|j: int|
            0 <= j < 5 ==> is_header_name(#[trigger] security_header_list(script_hash)[j].0)
                && is_header_text(security_header_list(script_hash)[j].1),
{
    reveal_strlit("x-content-type-options");
    reveal_strlit("nosniff");
    reveal_strlit("x-frame-options");
    reveal_strlit("DENY");
    reveal_strlit("referrer-policy");
    reveal_strlit("no-referrer");
    reveal_strlit("content-security-policy");
    reveal_strlit("permissions-policy");
    reveal_strlit("camera=(), microphone=(), geolocation=(), payment=()");
    reveal_strlit("script-src 'self' '");
    reveal_strlit("'; object-src 'none'; base-uri 'self'; frame-ancestors 'none'; form-action 'self'");
    reveal_strlit("script-src 'self'; object-src 'none'; base-uri 'self'; frame-ancestors 'none'; form-action 'self'");
    let l = security_header_list(script_hash);
    let csp = csp_text(script_hash);
    match script_hash {
        Some(h) => {
            let a = "script-src 'self' '"@;
            let b = "'; object-src 'none'; base-uri 'self'; frame-ancestors 'none'; form-action 'self'"@;
            assert forall|i: int| 0 <= i < csp.len() implies (' ' <= #[trigger] csp[i] && csp[i] <= '~') by {
                if i < a.len() {
                    assert(csp[i] == a[i]);
                } else if i < a.len() + h.len() {
                    assert(csp[i] == h[i - a.len()]);
                } else {
                    assert(csp[i] == b[i - a.len() - h.len()]);
                }
            }
        },
        None => {},
    }
    assert(is_header_text(l[3].1));
}

/// Adds the baseline security headers ([`security_headers`]) to a response's headers, each
/// replacing whatever values the response had under its name.
pub fn set_security_headers(headers: &mut HeaderMap, script_hash: Option<&str>)
    requires
        match script_hash {
            Some(h) => is_header_text(h@),
            None => true,
        },
        has_room(header_map(*old(headers)), 5),
    ensures
        header_map(*final(headers)) == with_headers(
            header_map(*old(headers)),
            security_header_list(script_hash.deep_view()),
        ),
{
    let list = security_headers(script_hash);
    proof {
        lemma_security_headers_valid(script_hash.deep_view());
    }
    let ghost start = header_map(*headers);
    let mut i: usize = 0;
    while i < list.len()
        invariant
            header_pairs(list@) == security_header_list(script_hash.deep_view()),
            list.len() == 5,
            0 <= i <= list.len(),
            forall|j: int|
                0 <= j < 5 ==> is_header_name(#[trigger] header_pairs(list@)[j].0)
                    && is_header_text(header_pairs(list@)[j].1),
            has_room(start, 5),
            header_map(*headers) == with_headers(start, header_pairs(list@).take(i as int)),
            header_map(*headers).dom().finite(),
            header_map(*headers).dom().len() <= start.dom().len() + i,
        decreases list.len() - i,
    {
        let ghost before = header_map(*headers);
        assert(header_pairs(list@)[i as int] == (list@[i as int].name@, list@[i as int].value@));
        assert(is_header_name(header_pairs(list@)[i as int].0));
        insert_header(headers, list[i].name.as_str(), list[i].value.as_str());
        let ghost taken = header_pairs(list@).take(i as int + 1);
        assert(taken.drop_last() =~= header_pairs(list@).take(i as int));
        assert(taken.last() == header_pairs(list@)[i as int]);
        i += 1;
    }
    assert(header_pairs(list@).take(5) =~= header_pairs(list@));
}

/// Adds the baseline security headers to a response's headers when that can be done: the hash,
/// if any, is header text and the map has room for five more names. Then the headers are set as
/// [`set_security_headers`] sets them and the answer is `true`; otherwise the headers are left
/// as they were and the answer is `false`.
pub fn try_set_security_headers(headers: &mut HeaderMap, script_hash: Option<&str>) -> (res: bool)
    ensures
        res == ((match script_hash {
            Some(h) => is_header_text(h@),
            None => true,
        }) && has_room(header_map(*old(headers)), 5)),
        res ==> header_map(*final(headers)) == with_headers(
            header_map(*old(headers)),
            security_header_list(script_hash.deep_view()),
        ),
        !res ==> header_map(*final(headers)) == header_map(*old(headers)),
{
    let hash_ok = match script_hash {
        Some(h) => header_text(h),
        None => true,
    };
    let count = header_name_count(headers);
    if hash_ok && count < 6548 {
        set_security_headers(headers, script_hash);
        true
    } else {
        false
    }
}

/// Inserting a list of headers overrides the map with the list's own headers: what the list
/// names holds the list's last value for it, and every other header is kept as it was.
pub proof fn lemma_with_headers_overrides(
    m: Map<Seq<char>, Seq<Seq<u8>>>,
    pairs: Seq<(Seq<char>, Seq<char>)>,
)
    ensures
        with_headers(m, pairs) == m.union_prefer_right(with_headers(Map::empty(), pairs)),
    decreases pairs.len(),
{
    if pairs.len() == 0 {
        assert(m =~= m.union_prefer_right(Map::empty()));
    } else {
        lemma_with_headers_overrides(m, pairs.drop_last());
        assert(with_headers(m, pairs) =~= m.union_prefer_right(with_headers(Map::empty(), pairs)));
    }
}

/// Setting the security headers twice gives the same headers as setting them once.
pub proof fn lemma_security_headers_idempotent(
    m: Map<Seq<char>, Seq<Seq<u8>>>,
    script_hash: Option<Seq<char>>,
)
    ensures
        with_headers(with_headers(m, security_header_list(script_hash)), security_header_list(script_hash))
            == with_headers(m, security_header_list(script_hash)),
{
    let l = security_header_list(script_hash);
    let own = with_headers(Map::empty(), l);
    lemma_with_headers_overrides(m, l);
    lemma_with_headers_overrides(with_headers(m, l), l);
    assert(m.union_prefer_right(own).union_prefer_right(own) =~= m.union_prefer_right(own));
}

/// After the security headers are set, each holds exactly its one value, whatever the
/// response had under that name before, and every other header is kept as it was.
pub proof fn lemma_security_headers_replace(
    m: Map<Seq<char>, Seq<Seq<u8>>>,
    script_hash: Option<Seq<char>>,
)
    ensures
        forall|j: int|
            0 <= j < 5 ==> with_headers(m, security_header_list(script_hash))[#[trigger] security_header_list(script_hash)[j].0]
                == seq![ascii_bytes(security_header_list(script_hash)[j].1)],
        with_headers(m, security_header_list(script_hash)).dom() == m.dom() + security_header_names(),
        forall|k: Seq<char>|
            #![auto]
            !security_header_names().contains(k) && m.contains_key(k) ==> with_headers(m, security_header_list(script_hash))[k] == m[k],
{
    reveal_strlit("x-content-type-options");
    reveal_strlit("x-frame-options");
    reveal_strlit("referrer-policy");
    reveal_strlit("content-security-policy");
    reveal_strlit("permissions-policy");
    let l = security_header_list(script_hash);
    let l4 = l.drop_last();
    let l3 = l4.drop_last();
    let l2 = l3.drop_last();
    let l1 = l2.drop_last();
    let l0 = l1.drop_last();
    assert(l0.len() == 0);
    assert(l1.last() == l[0]);
    assert(l2.last() == l[1]);
    assert(l3.last() == l[2]);
    assert(l4.last() == l[3]);
    let w0 = with_headers(m, l0);
    let w1 = with_headers(m, l1);
    let w2 = with_headers(m, l2);
    let w3 = with_headers(m, l3);
    let w4 = with_headers(m, l4);
    let w5 = with_headers(m, l);
    assert(w0 == m);
    assert(w1 == w0.insert(l[0].0, seq![ascii_bytes(l[0].1)]));
    assert(w2 == w1.insert(l[1].0, seq![ascii_bytes(l[1].1)]));
    assert(w3 == w2.insert(l[2].0, seq![ascii_bytes(l[2].1)]));
    assert(w4 == w3.insert(l[3].0, seq![ascii_bytes(l[3].1)]));
    assert(w5 == w4.insert(l[4].0, seq![ascii_bytes(l[4].1)]));
    assert(l[0].0.len() == 22 && l[1].0.len() == 15 && l[2].0.len() == 15);
    assert(l[3].0.len() == 23 && l[4].0.len() == 18);
    assert(l[1].0[0] == 'x' && l[2].0[0] == 'r');
    assert(l[0].0 != l[1].0 && l[0].0 != l[2].0 && l[0].0 != l[3].0 && l[0].0 != l[4].0);
    assert(l[1].0 != l[2].0 && l[1].0 != l[3].0 && l[1].0 != l[4].0);
    assert(l[2].0 != l[3].0 && l[2].0 != l[4].0);
    assert(l[3].0 != l[4].0);
    assert forall|j: int| 0 <= j < 5 implies w5[#[trigger] l[j].0] == seq![ascii_bytes(l[j].1)] by {
        if j == 0 {
        } else if j == 1 {
        } else if j == 2 {
        } else if j == 3 {
        } else {
        }
    }
    assert(with_headers(m, l).dom() =~= m.dom() + security_header_names());
}

/// The opt-in auth policy in one place: a configured token yields the token layer (Bearer
/// token or Basic password, challenge naming `realm`); no token leaves the router open.
pub fn protection(auth_token: Option<&str>, realm: &str) -> (res: Option<TokenAuthLayer>)
    ensures
        match auth_token {
            Some(t) => res matches Some(layer) && layer.token() == t@ && layer.realm() == realm@,
            None => res is None,
        },
{
    match auth_token {
        Some(t) => Some(TokenAuthLayer::with_realm(t.to_owned(), realm.to_owned())),
        None => None,
    }
}

/// Serialization helper: a `bool` field is omitted from the wire form when it is `false`.
pub fn is_false(b: &bool) -> (res: bool)
    ensures
        res == !*b,
{
    !*b
}

} // verus!
