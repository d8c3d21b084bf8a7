//! The public landing/info page served at `/`: it advertises the MCP endpoints the server
//! mounted, shows the credential to send when auth is required, and offers a login form (auth
//! required) or a button into the UI at `/ui/`. Every value taken from the request or the
//! configuration is HTML-escaped before it is interpolated.

use vstd::prelude::*;

use crate::text::{chars_of, contains_run, push_char};

verus! {

/// What the landing page advertises: a display name and which transports are mounted.
#[derive(Clone)]
pub struct Landing {
    /// Server display name.
    pub name: String,
    /// Streamable HTTP `/mcp` is mounted.
    pub mcp: bool,
    /// Legacy HTTP+SSE (`/sse` + `/message`) is mounted.
    pub sse: bool,
    /// Whether a token is required (drives the login form vs the open button).
    pub auth_required: bool,
}

/// The HTML escape of one character: `&`, `<`, `>` and `"` become entities.
pub open spec fn escape_char(c: char) -> Seq<char> {
    if c == '&' {
        seq!['&', 'a', 'm', 'p', ';']
    } else if c == '<' {
        seq!['&', 'l', 't', ';']
    } else if c == '>' {
        seq!['&', 'g', 't', ';']
    } else if c == '"' {
        seq!['&', 'q', 'u', 'o', 't', ';']
    } else {
        seq![c]
    }
}

/// The HTML escape of a text, character by character.
pub open spec fn escape_text(s: Seq<char>) -> Seq<char>
    decreases s.len(),
{
    if s.len() == 0 {
        Seq::empty()
    } else {
        escape_char(s[0]) + escape_text(s.drop_first())
    }
}

/// The best-effort public origin: `X-Forwarded-Proto` (default `http`), `://`, then `Host`
/// (default `localhost`).
pub open spec fn origin_text(host: Option<Seq<char>>, proto: Option<Seq<char>>) -> Seq<char> {
    let host = match host {
        Some(h) => h,
        None => "localhost"@,
    };
    let scheme = match proto {
        Some(p) => p,
        None => "http"@,
    };
    scheme + "://"@ + host
}

/// The transport section of the page, for escaped origin `o` and escaped name `name`.
pub open spec fn transports_html(l: Landing, o: Seq<char>, name: Seq<char>) -> Seq<char> {
    let arg = header_arg(l.auth_required);
    let mcp = if l.mcp {
        "<h2>MCP over Streamable HTTP</h2><p>Endpoint: <code>"@ + o + "/mcp"@
            + "</code></p><pre>mcp add --transport http "@ + name + " "@ + o + "/mcp"@ + arg
            + "</pre>"@
    } else {
        Seq::empty()
    };
    let sse = if l.sse {
        "<h2>MCP over legacy HTTP+SSE</h2><p>Stream: <code>"@ + o + "/sse"@
            + "</code><br>Messages: <code>"@ + o + "/message"@ + "</code></p>"@
    } else {
        Seq::empty()
    };
    let none = if !l.mcp && !l.sse {
        "<p class=\"muted\">No MCP transport is enabled on this server.</p>"@
    } else {
        Seq::empty()
    };
    mcp + sse + none
}

/// The sign-in section (auth required) or the open-UI button.
pub open spec fn access_html(auth_required: bool) -> Seq<char> {
    if auth_required {
        "<h2>Sign in</h2><p>This server requires a token (its <code>AUTH_TOKEN</code>). MCP clients send it as <code>Authorization: Bearer &lt;token&gt;</code>; in the browser, sign in to open the UI:</p><form method=\"post\" action=\"/login\"><input type=\"password\" name=\"token\" placeholder=\"token\" autofocus><button type=\"submit\">Sign in</button></form>"@
    } else {
        "<h2>Web UI</h2><p><a class=\"btn\" href=\"/ui/\">Open the UI</a></p>"@
    }
}

/// The whole landing page for the request's `Host`/`X-Forwarded-Proto` and the stylesheet
/// `style`.
pub open spec fn landing_html(
    l: Landing,
    host: Option<Seq<char>>,
    proto: Option<Seq<char>>,
    style: Seq<char>,
) -> Seq<char> {
    let o = escape_text(origin_text(host, proto));
    let name = escape_text(l.name@);
    "<!doctype html><html lang=\"en\"><head><meta charset=\"utf-8\"><meta name=\"viewport\" content=\"width=device-width, initial-scale=1\"><title>"@
        + name + "</title><style>"@ + style + "</style></head><body><h1>"@ + name
        + "</h1><p class=\"muted\">MCP server</p>"@ + transports_html(l, o, name)
        + access_html(l.auth_required) + "</body></html>"@
}

/// The escape of a concatenation is the concatenation of the escapes.
pub proof fn lemma_escape_append(a: Seq<char>, b: Seq<char>)
    ensures
        escape_text(a + b) == escape_text(a) + escape_text(b),
    decreases a.len(),
{
    if a.len() == 0 {
        assert(a + b =~= b);
    } else {
        assert((a + b).drop_first() =~= a.drop_first() + b);
        lemma_escape_append(a.drop_first(), b);
        assert(escape_text(a + b) =~= escape_char(a[0]) + (escape_text(a.drop_first())
            + escape_text(b)));
    }
}

/// Escaped text holds no markup delimiter: no `<`, `>` or `"` survives escaping.
pub proof fn lemma_escape_has_no_markup(s: Seq<char>)
    ensures
        forall|i: int|
            0 <= i < escape_text(s).len() ==> {
                let c = #[trigger] escape_text(s)[i];
                c != '<' && c != '>' && c != '"'
            },
    decreases s.len(),
{
    if s.len() > 0 {
        lemma_escape_has_no_markup(s.drop_first());
        let head = escape_char(s[0]);
        let tail = escape_text(s.drop_first());
        assert forall|i: int| 0 <= i < escape_text(s).len() implies {
            let c = #[trigger] escape_text(s)[i];
            c != '<' && c != '>' && c != '"'
        } by {
            if i < head.len() {
                assert(escape_text(s)[i] == head[i]);
            } else {
                assert(escape_text(s)[i] == tail[i - head.len()]);
            }
        }
    }
}

/// Text without `&`, `<`, `>` and `"` is left unchanged by escaping.
pub proof fn lemma_escape_plain(s: Seq<char>)
    requires
        forall|i: int| 0 <= i < s.len() ==> {
            let c = #[trigger] s[i];
            c != '&' && c != '<' && c != '>' && c != '"'
        },
    ensures
        escape_text(s) == s,
    decreases s.len(),
{
    if s.len() > 0 {
        assert forall|i: int| 0 <= i < s.drop_first().len() implies {
            let c = #[trigger] s.drop_first()[i];
            c != '&' && c != '<' && c != '>' && c != '"'
        } by {
            assert(s.drop_first()[i] == s[i + 1]);
        }
        lemma_escape_plain(s.drop_first());
        assert(seq![s[0]] + s.drop_first() =~= s);
    }
}

/// Escaping is one-to-one: different texts never escape to the same HTML, so the page shows
/// exactly the text it was given.
pub proof fn lemma_escape_injective(a: Seq<char>, b: Seq<char>)
    requires
        escape_text(a) == escape_text(b),
    ensures
        a == b,
    decreases a.len(),
{
    if a.len() == 0 {
        if b.len() > 0 {
            assert(escape_text(b).len() > 0);
        }
        assert(a =~= b);
    } else {
        if b.len() == 0 {
            assert(escape_text(a).len() > 0);
        }
        let ha = escape_char(a[0]);
        let hb = escape_char(b[0]);
        let ea = escape_text(a);
        assert(ea[0] == ha[0]);
        assert(ea[0] == hb[0]);
        if ha.len() > 1 {
            assert(ea[1] == ha[1]);
        }
        if hb.len() > 1 {
            assert(ea[1] == hb[1]);
        }
        assert(a[0] == b[0]);
        assert(escape_text(a.drop_first()) =~= ea.skip(ha.len() as int));
        assert(escape_text(b.drop_first()) =~= ea.skip(hb.len() as int));
        lemma_escape_injective(a.drop_first(), b.drop_first());
        assert(a =~= seq![a[0]] + a.drop_first());
        assert(b =~= seq![b[0]] + b.drop_first());
    }
}

/// `p` occurs in `s` at position `i`.
pub open spec fn occurs_at(s: Seq<char>, p: Seq<char>, i: int) -> bool {
    0 <= i && i + p.len() <= s.len() && s.subrange(i, i + p.len()) == p
}

/// A run occurs where it is placed.
proof fn lemma_occurs_middle(a: Seq<char>, p: Seq<char>, b: Seq<char>)
    ensures
        occurs_at(a + p + b, p, a.len() as int),
{
    assert((a + p + b).subrange(a.len() as int, (a.len() + p.len()) as int) =~= p);
}

/// A run inside a part of a concatenation occurs in the whole.
proof fn lemma_occurs_in_concat(a: Seq<char>, m: Seq<char>, b: Seq<char>, p: Seq<char>, i: int)
    requires
        occurs_at(m, p, i),
    ensures
        occurs_at(a + m + b, p, a.len() + i),
{
    assert((a + m + b).subrange(a.len() + i, a.len() + i + p.len()) =~= m.subrange(i, i + p.len()));
}

/// The page is its head, its transport section and its access section.
proof fn lemma_landing_parts(l: Landing, host: Option<Seq<char>>, proto: Option<Seq<char>>, style: Seq<char>)
    ensures
        exists|head: Seq<char>, tail: Seq<char>|
            landing_html(l, host, proto, style) == head + transports_html(
                l,
                escape_text(origin_text(host, proto)),
                escape_text(l.name@),
            ) + tail,
{
    let o = escape_text(origin_text(host, proto));
    let name = escape_text(l.name@);
    let head = "<!doctype html><html lang=\"en\"><head><meta charset=\"utf-8\"><meta name=\"viewport\" content=\"width=device-width, initial-scale=1\"><title>"@
        + name + "</title><style>"@ + style + "</style></head><body><h1>"@ + name
        + "</h1><p class=\"muted\">MCP server</p>"@;
    let tail = access_html(l.auth_required) + "</body></html>"@;
    assert(landing_html(l, host, proto, style) =~= head + transports_html(l, o, name) + tail);
}

/// A run of the transport section occurs in the page.
proof fn lemma_in_transports(l: Landing, host: Option<Seq<char>>, proto: Option<Seq<char>>, style: Seq<char>, p: Seq<char>, i: int)
    requires
        occurs_at(transports_html(l, escape_text(origin_text(host, proto)), escape_text(l.name@)), p, i),
    ensures
        exists|k: int| occurs_at(landing_html(l, host, proto, style), p, k),
{
    lemma_landing_parts(l, host, proto, style);
    let t = transports_html(l, escape_text(origin_text(host, proto)), escape_text(l.name@));
    let (head, tail) = choose|head: Seq<char>, tail: Seq<char>| landing_html(l, host, proto, style) == head + t + tail;
    lemma_occurs_in_concat(head, t, tail, p, i);
}

/// The `--header` argument of the advertised client command.
pub open spec fn header_arg(auth_required: bool) -> Seq<char> {
    if auth_required {
        " \\\n  --header \"Authorization: Bearer $AUTH_TOKEN\""@
    } else {
        Seq::empty()
    }
}

proof fn lemma_advertises_mcp(l: Landing, host: Option<Seq<char>>, proto: Option<Seq<char>>, style: Seq<char>)
    requires
        l.mcp,
    ensures
        exists|i: int| occurs_at(
            landing_html(l, host, proto, style),
            escape_text(origin_text(host, proto)) + "/mcp"@,
            i,
        ),
{
    let o = escape_text(origin_text(host, proto));
    let name = escape_text(l.name@);
    let t = transports_html(l, o, name);
    let pre = "<h2>MCP over Streamable HTTP</h2><p>Endpoint: <code>"@;
    let rest = "</code></p><pre>mcp add --transport http "@ + name + " "@ + o + "/mcp"@
        + header_arg(l.auth_required) + "</pre>"@;
    let mcp_part = pre + (o + "/mcp"@) + rest;
    let after = t.skip(mcp_part.len() as int);
    assert(t =~= mcp_part + after);
    assert(t =~= pre + (o + "/mcp"@) + (rest + after));
    lemma_occurs_middle(pre, o + "/mcp"@, rest + after);
    lemma_in_transports(l, host, proto, style, o + "/mcp"@, pre.len() as int);
}

proof fn lemma_advertises_sse(l: Landing, host: Option<Seq<char>>, proto: Option<Seq<char>>, style: Seq<char>)
    requires
        l.sse,
    ensures
        exists|i: int| occurs_at(
            landing_html(l, host, proto, style),
            escape_text(origin_text(host, proto)) + "/sse"@,
            i,
        ),
        exists|i: int| occurs_at(
            landing_html(l, host, proto, style),
            escape_text(origin_text(host, proto)) + "/message"@,
            i,
        ),
{
    let o = escape_text(origin_text(host, proto));
    let name = escape_text(l.name@);
    let t = transports_html(l, o, name);
    let sse_part = "<h2>MCP over legacy HTTP+SSE</h2><p>Stream: <code>"@ + o + "/sse"@
        + "</code><br>Messages: <code>"@ + o + "/message"@ + "</code></p>"@;
    let before = t.take(t.len() - sse_part.len());
    assert(t =~= before + sse_part);
    let pre = before + "<h2>MCP over legacy HTTP+SSE</h2><p>Stream: <code>"@;
    let mid = "</code><br>Messages: <code>"@;
    let end = "</code></p>"@;
    assert(t =~= pre + (o + "/sse"@) + (mid + o + "/message"@ + end));
    lemma_occurs_middle(pre, o + "/sse"@, mid + o + "/message"@ + end);
    lemma_in_transports(l, host, proto, style, o + "/sse"@, pre.len() as int);
    let pre2 = pre + (o + "/sse"@) + mid;
    assert(t =~= pre2 + (o + "/message"@) + end);
    lemma_occurs_middle(pre2, o + "/message"@, end);
    lemma_in_transports(l, host, proto, style, o + "/message"@, pre2.len() as int);
}

/// The page advertises the endpoints that are mounted: with Streamable HTTP on it shows
/// `<origin>/mcp`, with SSE on it shows `<origin>/sse` and `<origin>/message`, the origin
/// escaped.
pub proof fn lemma_landing_advertises_endpoints(
    l: Landing,
    host: Option<Seq<char>>,
    proto: Option<Seq<char>>,
    style: Seq<char>,
)
    ensures
        l.mcp ==> exists|i: int| occurs_at(
            landing_html(l, host, proto, style),
            escape_text(origin_text(host, proto)) + "/mcp"@,
            i,
        ),
        l.sse ==> exists|i: int| occurs_at(
            landing_html(l, host, proto, style),
            escape_text(origin_text(host, proto)) + "/sse"@,
            i,
        ),
        l.sse ==> exists|i: int| occurs_at(
            landing_html(l, host, proto, style),
            escape_text(origin_text(host, proto)) + "/message"@,
            i,
        ),
{
    if l.mcp {
        lemma_advertises_mcp(l, host, proto, style);
    }
    if l.sse {
        lemma_advertises_sse(l, host, proto, style);
    }
}

/// `"`, `>`, `N` at `i`: the run that opens the text of the no-transport notice.
spec fn notice_key_at(s: Seq<char>, i: int) -> bool {
    0 <= i && i + 2 < s.len() && s[i] == '"' && s[i + 1] == '>' && s[i + 2] == 'N'
}

/// `s` nowhere holds the run that opens the no-transport notice's text.
spec fn no_notice_key(s: Seq<char>) -> bool {
    forall|i: int| !#[trigger] notice_key_at(s, i)
}

/// `s` does not end part-way into that run: its last character is no `"`, and it does not end
/// in `">`.
spec fn clean_end(s: Seq<char>) -> bool {
    s.len() == 0 || (s.last() != '"' && !(s.len() >= 2 && s[s.len() - 2] == '"' && s.last()
        == '>'))
}

/// Text with no `"` holds no such run and ends cleanly.
proof fn lemma_quote_free(s: Seq<char>)
    requires
        forall|i: int| 0 <= i < s.len() ==> #[trigger] s[i] != '"',
    ensures
        no_notice_key(s),
        clean_end(s),
{
    assert forall|i: int| !#[trigger] notice_key_at(s, i) by {
        if 0 <= i < s.len() {
            assert(s[i] != '"');
        }
    }
}

/// Escaped text holds no such run and ends cleanly, and its last character is no `>`.
proof fn lemma_escaped_quiet(t: Seq<char>)
    ensures
        no_notice_key(escape_text(t)),
        clean_end(escape_text(t)),
        escape_text(t).len() == 0 || escape_text(t).last() != '>',
{
    lemma_escape_has_no_markup(t);
    let e = escape_text(t);
    assert forall|i: int| 0 <= i < e.len() implies #[trigger] e[i] != '"' by {
        let c = e[i];
    }
    lemma_quote_free(e);
    if e.len() > 0 {
        let c = e[e.len() - 1];
    }
}

/// Joining two pieces without the run makes none, unless the first ends part-way into it and
/// the second goes on with it; a second piece that starts with `<` never does.
proof fn lemma_join(a: Seq<char>, b: Seq<char>)
    requires
        no_notice_key(a),
        no_notice_key(b),
        clean_end(a) || (b.len() > 0 && b[0] == '<'),
    ensures
        no_notice_key(a + b),
        (b.len() >= 2 && clean_end(b)) || (b.len() == 1 && b[0] != '"' && b[0] != '>') || (
        b.len() == 0 && clean_end(a)) ==> clean_end(a + b),
{
    let s = a + b;
    assert forall|i: int| !#[trigger] notice_key_at(s, i) by {
        if notice_key_at(s, i) {
            if i + 2 < a.len() {
                assert(notice_key_at(a, i));
            } else if i >= a.len() {
                assert(s[i] == b[i - a.len()]);
                assert(s[i + 1] == b[i + 1 - a.len()]);
                assert(s[i + 2] == b[i + 2 - a.len()]);
                assert(notice_key_at(b, i - a.len()));
            } else if i == a.len() - 1 {
                assert(s[i] == a.last());
                assert(s[i + 1] == b[0]);
            } else {
                assert(s[i] == a[a.len() - 2]);
                assert(s[i + 1] == a.last());
                assert(s[i + 2] == b[0]);
            }
        }
    }
    if b.len() >= 2 {
        assert(s.last() == b.last());
        assert(s[s.len() - 2] == b[b.len() - 2]);
    } else if b.len() == 1 {
        assert(s.last() == b[0]);
    } else {
        assert(s =~= a);
    }
}

/// The transport section of a page with a transport mounted holds no such run, and it ends
/// cleanly.
proof fn lemma_mounted_section_quiet(l: Landing, o: Seq<char>, name: Seq<char>)
    requires
        l.mcp || l.sse,
        no_notice_key(o),
        clean_end(o),
        o.len() == 0 || o.last() != '>',
        forall|i: int| 0 <= i < o.len() ==> #[trigger] o[i] != '"',
        forall|i: int| 0 <= i < name.len() ==> #[trigger] name[i] != '"',
    ensures
        no_notice_key(transports_html(l, o, name)),
        clean_end(transports_html(l, o, name)),
{
    reveal_strlit("<h2>MCP over Streamable HTTP</h2><p>Endpoint: <code>");
    reveal_strlit("/mcp");
    reveal_strlit("</code></p><pre>mcp add --transport http ");
    reveal_strlit(" ");
    reveal_strlit("</pre>");
    reveal_strlit(" \\\n  --header \"Authorization: Bearer $AUTH_TOKEN\"");
    reveal_strlit("<h2>MCP over legacy HTTP+SSE</h2><p>Stream: <code>");
    reveal_strlit("/sse");
    reveal_strlit("</code><br>Messages: <code>");
    reveal_strlit("/message");
    reveal_strlit("</code></p>");
    lemma_quote_free(name);
    let arg = header_arg(l.auth_required);
    let m1 = "<h2>MCP over Streamable HTTP</h2><p>Endpoint: <code>"@;
    let m3 = "</code></p><pre>mcp add --transport http "@;
    let sl = "/mcp"@;
    let sp = " "@;
    let pre_end = "</pre>"@;
    lemma_quote_free(m1);
    lemma_quote_free(sl);
    lemma_quote_free(m3);
    lemma_quote_free(sp);
    lemma_quote_free(pre_end);
    if l.auth_required {
        let a = arg;
        assert(no_notice_key(a)) by {
            assert forall|i: int| !#[trigger] notice_key_at(a, i) by {
                if notice_key_at(a, i) {
                    assert(a[i] == '"');
                }
            }
        }
    } else {
        lemma_quote_free(arg);
    }
    let mcp = if l.mcp {
        lemma_join(m1, o);
        lemma_join(m1 + o, sl);
        lemma_join(m1 + o + sl, m3);
        lemma_join(m1 + o + sl + m3, name);
        lemma_join(m1 + o + sl + m3 + name, sp);
        lemma_join(m1 + o + sl + m3 + name + sp, o);
        lemma_join(m1 + o + sl + m3 + name + sp + o, sl);
        lemma_join(m1 + o + sl + m3 + name + sp + o + sl, arg);
        lemma_join(m1 + o + sl + m3 + name + sp + o + sl + arg, pre_end);
        m1 + o + sl + m3 + name + sp + o + sl + arg + pre_end
    } else {
        Seq::empty()
    };
    let s1 = "<h2>MCP over legacy HTTP+SSE</h2><p>Stream: <code>"@;
    let s2 = "/sse"@;
    let s3 = "</code><br>Messages: <code>"@;
    let s4 = "/message"@;
    let s5 = "</code></p>"@;
    lemma_quote_free(s1);
    lemma_quote_free(s2);
    lemma_quote_free(s3);
    lemma_quote_free(s4);
    lemma_quote_free(s5);
    let sse = if l.sse {
        lemma_join(s1, o);
        lemma_join(s1 + o, s2);
        lemma_join(s1 + o + s2, s3);
        lemma_join(s1 + o + s2 + s3, o);
        lemma_join(s1 + o + s2 + s3 + o, s4);
        lemma_join(s1 + o + s2 + s3 + o + s4, s5);
        s1 + o + s2 + s3 + o + s4 + s5
    } else {
        Seq::empty()
    };
    assert(no_notice_key(mcp));
    assert(no_notice_key(sse));
    if l.mcp && l.sse {
        lemma_join(mcp, sse);
        assert(transports_html(l, o, name) =~= mcp + sse);
    } else if l.mcp {
        assert(transports_html(l, o, name) =~= mcp);
    } else {
        assert(transports_html(l, o, name) =~= sse);
    }
}

/// The page says that no MCP transport is enabled exactly when neither transport is mounted,
/// for a stylesheet without double quotes: a mounted transport never comes with the notice.
pub proof fn lemma_notice_only_without_transports(
    l: Landing,
    host: Option<Seq<char>>,
    proto: Option<Seq<char>>,
    style: Seq<char>,
)
    requires
        forall|i: int| 0 <= i < style.len() ==> #[trigger] style[i] != '"',
    ensures
        contains_run(
            landing_html(l, host, proto, style),
            "<p class=\"muted\">No MCP transport is enabled on this server.</p>"@,
        ) == (!l.mcp && !l.sse),
{
    let notice = "<p class=\"muted\">No MCP transport is enabled on this server.</p>"@;
    reveal_strlit("<p class=\"muted\">No MCP transport is enabled on this server.</p>");
    let page = landing_html(l, host, proto, style);
    let o = escape_text(origin_text(host, proto));
    let name = escape_text(l.name@);
    let t = transports_html(l, o, name);
    if !l.mcp && !l.sse {
        assert(t =~= notice);
        assert(t.subrange(0, notice.len() as int) =~= notice);
        assert(occurs_at(t, notice, 0));
        lemma_in_transports(l, host, proto, style, notice, 0);
        let k = choose|k: int| occurs_at(page, notice, k);
        assert(page.subrange(k, k + notice.len()) == notice);
    } else {
        lemma_escaped_quiet(origin_text(host, proto));
        lemma_escaped_quiet(l.name@);
        lemma_escape_has_no_markup(origin_text(host, proto));
        lemma_escape_has_no_markup(l.name@);
        assert forall|i: int| 0 <= i < o.len() implies #[trigger] o[i] != '"' by {
            let c = o[i];
        }
        assert forall|i: int| 0 <= i < name.len() implies #[trigger] name[i] != '"' by {
            let c = name[i];
        }
        lemma_mounted_section_quiet(l, o, name);
        let p1 = "<!doctype html><html lang=\"en\"><head><meta charset=\"utf-8\"><meta name=\"viewport\" content=\"width=device-width, initial-scale=1\"><title>"@;
        let p2 = "</title><style>"@;
        let p3 = "</style></head><body><h1>"@;
        let p4 = "</h1><p class=\"muted\">MCP server</p>"@;
        let acc = access_html(l.auth_required);
        let p5 = "</body></html>"@;
        reveal_strlit("<!doctype html><html lang=\"en\"><head><meta charset=\"utf-8\"><meta name=\"viewport\" content=\"width=device-width, initial-scale=1\"><title>");
        reveal_strlit("</title><style>");
        reveal_strlit("</style></head><body><h1>");
        reveal_strlit("</h1><p class=\"muted\">MCP server</p>");
        reveal_strlit("</body></html>");
        reveal_strlit("<h2>Sign in</h2><p>This server requires a token (its <code>AUTH_TOKEN</code>). MCP clients send it as <code>Authorization: Bearer &lt;token&gt;</code>; in the browser, sign in to open the UI:</p><form method=\"post\" action=\"/login\"><input type=\"password\" name=\"token\" placeholder=\"token\" autofocus><button type=\"submit\">Sign in</button></form>");
        reveal_strlit("<h2>Web UI</h2><p><a class=\"btn\" href=\"/ui/\">Open the UI</a></p>");
        assert(no_notice_key(p1)) by {
            assert forall|i: int| !#[trigger] notice_key_at(p1, i) by {
                if notice_key_at(p1, i) {
                    assert(p1[i + 2] == 'N');
                }
            }
        }
        assert(no_notice_key(p4)) by {
            assert forall|i: int| !#[trigger] notice_key_at(p4, i) by {
                if notice_key_at(p4, i) {
                    assert(p4[i + 2] == 'N');
                }
            }
        }
        assert(no_notice_key(acc)) by {
            assert forall|i: int| !#[trigger] notice_key_at(acc, i) by {
                if notice_key_at(acc, i) {
                    assert(acc[i + 2] == 'N');
                }
            }
        }
        lemma_quote_free(p2);
        lemma_quote_free(p3);
        lemma_quote_free(p5);
        lemma_quote_free(style);
        lemma_join(p1, name);
        lemma_join(p1 + name, p2);
        lemma_join(p1 + name + p2, style);
        lemma_join(p1 + name + p2 + style, p3);
        lemma_join(p1 + name + p2 + style + p3, name);
        lemma_join(p1 + name + p2 + style + p3 + name, p4);
        lemma_join(p1 + name + p2 + style + p3 + name + p4, t);
        lemma_join(p1 + name + p2 + style + p3 + name + p4 + t, acc);
        lemma_join(p1 + name + p2 + style + p3 + name + p4 + t + acc, p5);
        assert(page =~= p1 + name + p2 + style + p3 + name + p4 + t + acc + p5);
        if contains_run(page, notice) {
            let k = choose|k: int| 0 <= k && k + notice.len() <= page.len() && #[trigger] page.subrange(k, k + notice.len()) == notice;
            assert(page[k + 15] == notice[15]);
            assert(page[k + 16] == notice[16]);
            assert(page[k + 17] == notice[17]);
            assert(notice_key_at(page, k + 15));
        }
    }
}

/// Appends the characters of `cs` to `out`.
fn append_chars(out: &mut String, cs: &Vec<char>)
    ensures
        final(out)@ == old(out)@ + cs@,
{
    let mut i: usize = 0;
    while i < cs.len()
        invariant
            i <= cs.len(),
            out@ == old(out)@ + cs@.take(i as int),
        decreases cs.len() - i,
    {
        push_char(out, cs[i]);
        assert(old(out)@ + cs@.take(i + 1) =~= old(out)@ + cs@.take(i as int) + seq![cs@[i as int]]);
        i = i + 1;
    }
    assert(cs@.take(cs.len() as int) =~= cs@);
}

/// HTML-escapes `s`: `&`, `<`, `>` and `"` become `&amp;`, `&lt;`, `&gt;` and `&quot;`.
pub fn escape(s: &str) -> (res: String)
    ensures
        res@ == escape_text(s@),
{
    let cs = chars_of(s);
    let mut out = String::new();
    let mut i: usize = 0;
    while i < cs.len()
        invariant
            i <= cs.len(),
            cs@ == s@,
            out@ == escape_text(cs@.take(i as int)),
        decreases cs.len() - i,
    {
        let c = cs[i];
        let ghost before = out@;
        if c == '&' {
            append_chars(&mut out, &vec!['&', 'a', 'm', 'p', ';']);
        } else if c == '<' {
            append_chars(&mut out, &vec!['&', 'l', 't', ';']);
        } else if c == '>' {
            append_chars(&mut out, &vec!['&', 'g', 't', ';']);
        } else if c == '"' {
            append_chars(&mut out, &vec!['&', 'q', 'u', 'o', 't', ';']);
        } else {
            push_char(&mut out, c);
        }
        proof {
            assert(out@ =~= before + escape_char(c));
            assert(seq![c].drop_first() =~= Seq::<char>::empty());
            assert(escape_text(Seq::<char>::empty()) =~= Seq::<char>::empty());
            assert(escape_text(seq![c]) =~= escape_char(c));
            lemma_escape_append(cs@.take(i as int), seq![c]);
            assert(cs@.take(i + 1) =~= cs@.take(i as int) + seq![c]);
        }
        i = i + 1;
    }
    assert(cs@.take(cs.len() as int) =~= cs@);
    out
}

/// The public origin `scheme://host` from the request's `X-Forwarded-Proto` and `Host`
/// (`None`: absent or not readable as text).
pub fn origin(host: Option<&str>, proto: Option<&str>) -> (res: String)
    ensures
        res@ == origin_text(host.deep_view(), proto.deep_view()),
{
    let mut s = match proto {
        Some(p) => p.to_owned(),
        None => String::from_str("http"),
    };
    s.append("://");
    match host {
        Some(h) => s.append(h),
        None => s.append("localhost"),
    }
    s
}

impl Landing {
    /// A descriptor for a server called `name`, advertising no transports yet.
    pub fn new(name: &str) -> (res: Landing)
        ensures
            res.name@ == name@,
            !res.mcp,
            !res.sse,
            !res.auth_required,
    {
        Landing { name: name.to_owned(), mcp: false, sse: false, auth_required: false }
    }

    /// Advertise the Streamable HTTP `/mcp` endpoint.
    pub fn mcp(self, on: bool) -> (res: Landing)
        ensures
            res == (Landing { mcp: on, ..self }),
    {
        let mut l = self;
        l.mcp = on;
        l
    }

    /// Advertise the legacy `/sse` + `/message` endpoints.
    pub fn sse(self, on: bool) -> (res: Landing)
        ensures
            res == (Landing { sse: on, ..self }),
    {
        let mut l = self;
        l.sse = on;
        l
    }

    /// This descriptor with `auth_required` set as configured.
    pub fn requiring_auth(self, required: bool) -> (res: Landing)
        ensures
            res == (Landing { auth_required: required, ..self }),
    {
        let mut l = self;
        l.auth_required = required;
        l
    }

    /// The transport section for the escaped origin `o` and escaped name `name`.
    fn transports(&self, o: &str, name: &str) -> (res: String)
        ensures
            res@ == transports_html(*self, o@, name@),
    {
        let mut t = String::new();
        if self.mcp {
            t.append("<h2>MCP over Streamable HTTP</h2><p>Endpoint: <code>");
            t.append(o);
            t.append("/mcp");
            t.append("</code></p><pre>mcp add --transport http ");
            t.append(name);
            t.append(" ");
            t.append(o);
            t.append("/mcp");
            if self.auth_required {
                t.append(" \\\n  --header \"Authorization: Bearer $AUTH_TOKEN\"");
            }
            t.append("</pre>");
        }
        if self.sse {
            t.append("<h2>MCP over legacy HTTP+SSE</h2><p>Stream: <code>");
            t.append(o);
            t.append("/sse");
            t.append("</code><br>Messages: <code>");
            t.append(o);
            t.append("/message");
            t.append("</code></p>");
        }
        if !self.mcp && !self.sse {
            t.append("<p class=\"muted\">No MCP transport is enabled on this server.</p>");
        }
        assert(t@ =~= transports_html(*self, o@, name@));
        t
    }

    /// The landing page for a request with the given `Host` and `X-Forwarded-Proto` values
    /// (`None`: absent or not readable as text), inlining the stylesheet `style`.
    pub fn render(&self, host: Option<&str>, proto: Option<&str>, style: &str) -> (res: String)
        ensures
            res@ == landing_html(*self, host.deep_view(), proto.deep_view(), style@),
    {
        let o = escape(origin(host, proto).as_str());
        let name = escape(self.name.as_str());
        let transports = self.transports(o.as_str(), name.as_str());
        let access = if self.auth_required {
            String::from_str(
                "<h2>Sign in</h2><p>This server requires a token (its <code>AUTH_TOKEN</code>). MCP clients send it as <code>Authorization: Bearer &lt;token&gt;</code>; in the browser, sign in to open the UI:</p><form method=\"post\" action=\"/login\"><input type=\"password\" name=\"token\" placeholder=\"token\" autofocus><button type=\"submit\">Sign in</button></form>",
            )
        } else {
            String::from_str("<h2>Web UI</h2><p><a class=\"btn\" href=\"/ui/\">Open the UI</a></p>")
        };
        let mut page = String::from_str(
            "<!doctype html><html lang=\"en\"><head><meta charset=\"utf-8\"><meta name=\"viewport\" content=\"width=device-width, initial-scale=1\"><title>",
        );
        page.append(name.as_str());
        page.append("</title><style>");
        page.append(style);
        page.append("</style></head><body><h1>");
        page.append(name.as_str());
        page.append("</h1><p class=\"muted\">MCP server</p>");
        page.append(transports.as_str());
        page.append(access.as_str());
        page.append("</body></html>");
        assert(page@ =~= landing_html(*self, host.deep_view(), proto.deep_view(), style@));
        page
    }
}

} // verus!
