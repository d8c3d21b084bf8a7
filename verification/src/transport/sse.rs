//! The legacy HTTP+SSE transport's decisions: where its routes are mounted, the session ids it
//! hands out, the `endpoint` event that tells a client where to POST, and how a POSTed message
//! is answered.

use vstd::prelude::*;

use crate::strmap::StrMap;
use crate::text::{chars_of, push_char, string_of};

verus! {

/// The lowercase hex digit for `d < 16`.
pub open spec fn hex_char(d: nat) -> char {
    seq!['0', '1', '2', '3', '4', '5', '6', '7', '8', '9', 'a', 'b', 'c', 'd', 'e', 'f'][d as int]
}

/// The value of a lowercase hex digit.
pub open spec fn hex_char_value(c: char) -> nat {
    if '0' <= c && c <= '9' {
        ((c as u32) - ('0' as u32)) as nat
    } else {
        ((c as u32) - ('a' as u32) + 10) as nat
    }
}

/// `c` is a lowercase hex digit.
pub open spec fn is_hex_char(c: char) -> bool {
    ('0' <= c && c <= '9') || ('a' <= c && c <= 'f')
}

/// The lowercase hex digits of `n`, without leading zeros (`0` for zero).
pub open spec fn hex_of(n: nat) -> Seq<char>
    decreases n,
{
    if n < 16 {
        seq![hex_char(n)]
    } else {
        hex_of(n / 16).push(hex_char(n % 16))
    }
}

/// The value of a run of lowercase hex digits.
pub open spec fn hex_value(s: Seq<char>) -> nat
    decreases s.len(),
{
    if s.len() == 0 {
        0
    } else {
        hex_value(s.drop_last()) * 16 + hex_char_value(s.last())
    }
}

/// `{:0width$x}`: the hex digits of `n`, left-padded with zeros to at least `width` digits.
pub open spec fn hex_padded(n: nat, width: nat) -> Seq<char> {
    let d = hex_of(n);
    if d.len() < width {
        Seq::new((width - d.len()) as nat, |i: int| '0') + d
    } else {
        d
    }
}

/// A session id: the timestamp and the random part, each as 16 (or more) hex digits.
pub open spec fn session_id_text(timestamp: nat, random: nat) -> Seq<char> {
    hex_padded(timestamp, 16) + hex_padded(random, 16)
}

/// `base` without its trailing slashes (std `trim_end_matches('/')`).
pub open spec fn trim_slashes(base: Seq<char>) -> Seq<char>
    decreases base.len(),
{
    if base.len() > 0 && base.last() == '/' {
        trim_slashes(base.drop_last())
    } else {
        base
    }
}

/// The event-stream route under `base`.
pub open spec fn sse_route(base: Seq<char>) -> Seq<char> {
    trim_slashes(base) + "/sse"@
}

/// The message (POST) route under `base`, which the `endpoint` event advertises.
pub open spec fn message_route(base: Seq<char>) -> Seq<char> {
    trim_slashes(base) + "/message"@
}

/// The data of the `endpoint` event: where the client POSTs its messages.
pub open spec fn endpoint_text(post_path: Seq<char>, session_id: Seq<char>) -> Seq<char> {
    post_path + "?sessionId="@ + session_id
}


/// Every hex digit reads back as the value it was made from.
proof fn lemma_hex_char_value(d: nat)
    requires
        d < 16,
    ensures
        hex_char_value(hex_char(d)) == d,
        is_hex_char(hex_char(d)),
{
    let t = seq!['0', '1', '2', '3', '4', '5', '6', '7', '8', '9', 'a', 'b', 'c', 'd', 'e', 'f'];
    assert(hex_char(d) == t[d as int]);
    if d == 0 { assert(t[0] == '0'); }
    else if d == 1 { assert(t[1] == '1'); }
    else if d == 2 { assert(t[2] == '2'); }
    else if d == 3 { assert(t[3] == '3'); }
    else if d == 4 { assert(t[4] == '4'); }
    else if d == 5 { assert(t[5] == '5'); }
    else if d == 6 { assert(t[6] == '6'); }
    else if d == 7 { assert(t[7] == '7'); }
    else if d == 8 { assert(t[8] == '8'); }
    else if d == 9 { assert(t[9] == '9'); }
    else if d == 10 { assert(t[10] == 'a'); }
    else if d == 11 { assert(t[11] == 'b'); }
    else if d == 12 { assert(t[12] == 'c'); }
    else if d == 13 { assert(t[13] == 'd'); }
    else if d == 14 { assert(t[14] == 'e'); }
    else { assert(t[15] == 'f'); }
}

/// Hex digits read back as the number they were made from.
proof fn lemma_hex_of_value(n: nat)
    ensures
        hex_value(hex_of(n)) == n,
        forall|i: int| 0 <= i < hex_of(n).len() ==> is_hex_char(#[trigger] hex_of(n)[i]),
        hex_of(n).len() >= 1,
    decreases n,
{
    if n < 16 {
        lemma_hex_char_value(n);
        assert(seq![hex_char(n)].drop_last() =~= Seq::<char>::empty());
        assert(hex_value(Seq::<char>::empty()) == 0);
        assert(hex_value(seq![hex_char(n)]) == hex_value(Seq::<char>::empty()) * 16 + hex_char_value(hex_char(n)));
    } else {
        lemma_hex_of_value(n / 16);
        lemma_hex_char_value(n % 16);
        let s = hex_of(n);
        assert(s.drop_last() =~= hex_of(n / 16));
        assert(n == (n / 16) * 16 + n % 16);
        assert(s.last() == hex_char(n % 16));
        assert(hex_value(s) == hex_value(hex_of(n / 16)) * 16 + hex_char_value(hex_char(n % 16)));
        assert forall|i: int| 0 <= i < s.len() implies is_hex_char(#[trigger] s[i]) by {
            if i < s.len() - 1 {
                assert(s[i] == hex_of(n / 16)[i]);
            }
        }
    }
}

/// 16 to the `k`.
spec fn pow16(k: nat) -> nat
    decreases k,
{
    if k == 0 {
        1
    } else {
        16 * pow16((k - 1) as nat)
    }
}

/// A number below 16 to the `k` has at most `k` hex digits.
proof fn lemma_hex_of_len(n: nat, k: nat)
    requires
        1 <= k,
        n < pow16(k),
    ensures
        hex_of(n).len() <= k,
    decreases n,
{
    if n >= 16 {
        if k == 1 {
            assert(pow16(0) == 1);
        } else {
            let p = pow16((k - 1) as nat);
            assert(n / 16 < p) by (nonlinear_arith)
                requires
                    n < 16 * p,
            ;
            lemma_hex_of_len(n / 16, (k - 1) as nat);
        }
    }
}

/// Leading zeros do not change a hex value.
proof fn lemma_hex_value_zeros(z: nat, s: Seq<char>)
    ensures
        hex_value(Seq::new(z, |i: int| '0') + s) == hex_value(s),
    decreases s.len(), z,
{
    let zs = Seq::new(z, |i: int| '0');
    if s.len() > 0 {
        assert((zs + s).drop_last() =~= zs + s.drop_last());
        lemma_hex_value_zeros(z, s.drop_last());
    } else if z > 0 {
        assert(zs + s =~= zs);
        assert(zs.drop_last() =~= Seq::new((z - 1) as nat, |i: int| '0') + s);
        lemma_hex_value_zeros((z - 1) as nat, s);
        assert(Seq::new((z - 1) as nat, |i: int| '0') + s =~= Seq::new((z - 1) as nat, |i: int| '0'));
    } else {
        assert(zs + s =~= s);
    }
}

/// A number below 2^64, padded to 16 digits: exactly 16 hex digits that read back as it.
proof fn lemma_hex_padded_16(n: nat)
    requires
        n < 0x1_0000_0000_0000_0000,
    ensures
        hex_padded(n, 16).len() == 16,
        hex_value(hex_padded(n, 16)) == n,
        forall|i: int| 0 <= i < 16 ==> is_hex_char(#[trigger] hex_padded(n, 16)[i]),
{
    reveal_with_fuel(pow16, 17);
    assert(pow16(16) == 0x1_0000_0000_0000_0000);
    lemma_hex_of_len(n, 16);
    lemma_hex_of_value(n);
    let d = hex_of(n);
    if d.len() < 16 {
        let z = (16 - d.len()) as nat;
        lemma_hex_value_zeros(z, d);
        let p = hex_padded(n, 16);
        assert forall|i: int| 0 <= i < 16 implies is_hex_char(#[trigger] p[i]) by {
            if i < z {
                assert(p[i] == '0');
            } else {
                assert(p[i] == d[i - z]);
            }
        }
    }
}

/// Session ids of timestamps and random parts below 2^64 are 32 lowercase hex characters.
pub proof fn lemma_session_id_shape(timestamp: nat, random: nat)
    requires
        timestamp < 0x1_0000_0000_0000_0000,
        random < 0x1_0000_0000_0000_0000,
    ensures
        session_id_text(timestamp, random).len() == 32,
        forall|i: int| 0 <= i < 32 ==> is_hex_char(#[trigger] session_id_text(timestamp, random)[i]),
{
    lemma_hex_padded_16(timestamp);
    lemma_hex_padded_16(random);
    let s = session_id_text(timestamp, random);
    assert forall|i: int| 0 <= i < 32 implies is_hex_char(#[trigger] s[i]) by {
        if i < 16 {
            assert(s[i] == hex_padded(timestamp, 16)[i]);
        } else {
            assert(s[i] == hex_padded(random, 16)[i - 16]);
        }
    }
}

/// Different (timestamp, random) pairs below 2^64 never give the same session id.
pub proof fn lemma_session_id_injective(t1: nat, r1: nat, t2: nat, r2: nat)
    requires
        t1 < 0x1_0000_0000_0000_0000,
        r1 < 0x1_0000_0000_0000_0000,
        t2 < 0x1_0000_0000_0000_0000,
        r2 < 0x1_0000_0000_0000_0000,
        session_id_text(t1, r1) == session_id_text(t2, r2),
    ensures
        t1 == t2,
        r1 == r2,
{
    lemma_hex_padded_16(t1);
    lemma_hex_padded_16(r1);
    lemma_hex_padded_16(t2);
    lemma_hex_padded_16(r2);
    let s = session_id_text(t1, r1);
    assert(s.take(16) =~= hex_padded(t1, 16));
    assert(s.skip(16) =~= hex_padded(r1, 16));
    assert(session_id_text(t2, r2).take(16) =~= hex_padded(t2, 16));
    assert(session_id_text(t2, r2).skip(16) =~= hex_padded(r2, 16));
}

/// Trailing slashes of the base path do not move the routes: `/mcp/` mounts where `/mcp`
/// does, and the message route the `endpoint` event advertises is the one mounted.
pub proof fn lemma_trailing_slash_ignored(base: Seq<char>)
    ensures
        sse_route(base.push('/')) == sse_route(base),
        message_route(base.push('/')) == message_route(base),
{
    assert(base.push('/').drop_last() =~= base);
}

/// Trimming is idempotent: the trimmed base ends in no slash.
pub proof fn lemma_trim_slashes_idempotent(base: Seq<char>)
    ensures
        trim_slashes(trim_slashes(base)) == trim_slashes(base),
        trim_slashes(base).len() == 0 || trim_slashes(base).last() != '/',
    decreases base.len(),
{
    if base.len() > 0 && base.last() == '/' {
        lemma_trim_slashes_idempotent(base.drop_last());
    }
}

/// A base path is its trimmed form followed by nothing but slashes, and the trimmed form does
/// not end in a slash.
proof fn lemma_trim_slashes_split(base: Seq<char>)
    ensures
        trim_slashes(base).len() <= base.len(),
        base.take(trim_slashes(base).len() as int) == trim_slashes(base),
        forall|i: int| trim_slashes(base).len() <= i < base.len() ==> #[trigger] base[i] == '/',
        trim_slashes(base).len() == 0 || trim_slashes(base).last() != '/',
    decreases base.len(),
{
    if base.len() > 0 && base.last() == '/' {
        lemma_trim_slashes_split(base.drop_last());
        let t = trim_slashes(base);
        assert(base.take(t.len() as int) =~= base.drop_last().take(t.len() as int));
        assert forall|i: int| t.len() <= i < base.len() implies #[trigger] base[i] == '/' by {
            if i < base.len() - 1 {
                assert(base[i] == base.drop_last()[i]);
            }
        }
    } else {
        assert(base.take(base.len() as int) =~= base);
    }
}

/// Both routes sit directly under the whole base path: they share one prefix `p`, the event
/// stream at `p + "/sse"` and the messages at `p + "/message"`, where `p` is the given base
/// with its trailing slashes, and only those, dropped.
pub proof fn lemma_routes_share_the_base(base: Seq<char>)
    ensures
        ({
            let p = sse_route(base).take(sse_route(base).len() - 4);
            &&& sse_route(base).len() >= 4
            &&& sse_route(base) == p + "/sse"@
            &&& message_route(base) == p + "/message"@
            &&& p.len() <= base.len()
            &&& base.take(p.len() as int) == p
            &&& (forall|i: int| p.len() <= i < base.len() ==> #[trigger] base[i] == '/')
            &&& (p.len() == 0 || p.last() != '/')
        }),
{
    lemma_trim_slashes_split(base);
    let t = trim_slashes(base);
    reveal_strlit("/sse");
    assert((t + "/sse"@).take(t.len() as int) =~= t);
}

/// The digit for `d < 16`.
fn hex_digit(d: u128) -> (c: char)
    requires
        d < 16,
    ensures
        c == hex_char(d as nat),
{
    let digits = vec!['0', '1', '2', '3', '4', '5', '6', '7', '8', '9', 'a', 'b', 'c', 'd', 'e', 'f'];
    assert(digits@ =~= seq!['0', '1', '2', '3', '4', '5', '6', '7', '8', '9', 'a', 'b', 'c', 'd', 'e', 'f']);
    digits[d as usize]
}

/// `n` as lowercase hex, zero-padded to at least `width` digits (`format!("{:016x}")` for a
/// width of 16).
pub fn hex_padded_string(n: u128, width: usize) -> (res: String)
    ensures
        res@ == hex_padded(n as nat, width as nat),
{
    let mut out: Vec<char> = Vec::new();
    let mut x: u128 = n;
    while x >= 16
        invariant
            hex_of(n as nat) == hex_of(x as nat) + out@,
        decreases x,
    {
        let d = hex_digit(x % 16);
        let ghost before = out@;
        out.insert(0, d);
        proof {
            assert(hex_of(x as nat) == hex_of((x / 16) as nat).push(hex_char((x % 16) as nat)));
            assert(hex_of(x as nat) + before =~= hex_of((x / 16) as nat) + out@);
        }
        x = x / 16;
    }
    let ghost before = out@;
    out.insert(0, hex_digit(x));
    assert(out@ =~= hex_of(x as nat) + before);
    let ghost d = hex_of(n as nat);
    assert(out@ =~= d);
    let mut pad: usize = 0;
    while out.len() < width
        invariant
            out@ =~= Seq::new(pad as nat, |i: int| '0') + d,
            pad + d.len() == out@.len(),
            d.len() <= out@.len(),
            pad == 0 || out@.len() <= width,
        decreases width - out.len(),
    {
        out.insert(0, '0');
        pad = pad + 1;
        assert(out@ =~= Seq::new(pad as nat, |i: int| '0') + d);
    }
    proof {
        if d.len() < width {
            assert(pad == width - d.len());
        } else {
            assert(pad == 0);
            assert(out@ =~= d);
        }
    }
    string_of(&out)
}

/// The session id for a timestamp (nanoseconds) and a random part:
/// `format!("{:016x}{:016x}", timestamp, random)`.
pub fn session_id_from(timestamp: u128, random: u64) -> (res: String)
    ensures
        res@ == session_id_text(timestamp as nat, random as nat),
{
    let mut id = hex_padded_string(timestamp, 16);
    let r = hex_padded_string(random as u128, 16);
    id.append(r.as_str());
    id
}

/// A random `u64` (rand's `random::<u64>()`, from the thread-local generator); nothing is
/// claimed of the value.
#[verifier::external_body]
fn random_u64() -> u64 {
    rand::random::<u64>()
}

#[verifier::external_type_specification]
#[verifier::external_body]
pub struct ExSystemTime(std::time::SystemTime);

/// The current time (std `SystemTime::now`); nothing is claimed of it.
#[verifier::external_body]
fn system_now() -> std::time::SystemTime {
    std::time::SystemTime::now()
}

/// How long after the UNIX epoch `t` lies (std `SystemTime::duration_since(UNIX_EPOCH)`), or
/// `None` when it lies before; nothing is claimed of the duration.
#[verifier::external_body]
fn since_epoch(t: std::time::SystemTime) -> Option<std::time::Duration> {
    match t.duration_since(std::time::UNIX_EPOCH) {
        Ok(d) => Some(d),
        Err(_) => None,
    }
}

/// The whole nanoseconds of a duration (std `Duration::as_nanos`); the duration is opaque
/// here, so nothing is claimed of the number.
#[verifier::external_body]
fn whole_nanos(d: std::time::Duration) -> u128 {
    d.as_nanos()
}

/// The current time as nanoseconds since the UNIX epoch, or `None` when the clock reads
/// before the epoch.
fn unix_time_nanos() -> Option<u128> {
    match since_epoch(system_now()) {
        Some(d) => Some(whole_nanos(d)),
        None => None,
    }
}

/// A fresh session id: the current time in nanoseconds and a random `u64`, as hex. A clock
/// that reads before the UNIX epoch counts as time zero.
pub fn generate_session_id() -> (res: String)
    ensures
        exists|t: u128, r: u64| res@ == session_id_text(t as nat, r as nat),
{
    let t = match unix_time_nanos() {
        Some(t) => t,
        None => 0,
    };
    let r = random_u64();
    session_id_from(t, r)
}

/// `base` without its trailing slashes.
fn trimmed(base: &str) -> (res: Vec<char>)
    ensures
        res@ == trim_slashes(base@),
{
    let cs = chars_of(base);
    let mut n: usize = cs.len();
    assert(cs@.take(n as int) =~= cs@);
    while n > 0 && cs[n - 1] == '/'
        invariant
            n <= cs.len(),
            trim_slashes(cs@.take(n as int)) == trim_slashes(cs@),
        decreases n,
    {
        assert(cs@.take(n as int).drop_last() =~= cs@.take(n - 1));
        n = n - 1;
    }
    let res = crate::text::prefix_to(&cs, n);
    res
}

/// The two routes of an SSE server mounted under `base_path`: the event stream
/// (`{base}/sse`) and the message endpoint (`{base}/message`), with trailing slashes of the
/// base dropped. An empty base gives `/sse` and `/message`.
pub fn sse_routes(base_path: &str) -> (res: (String, String))
    ensures
        res.0@ == sse_route(base_path@),
        res.1@ == message_route(base_path@),
{
    let base = trimmed(base_path);
    let mut sse = string_of(&base);
    sse.append("/sse");
    let mut message = string_of(&base);
    message.append("/message");
    (sse, message)
}

/// The data of the `endpoint` event for a session: `{post_path}?sessionId={session_id}`.
pub fn endpoint_data(post_path: &str, session_id: &str) -> (res: String)
    ensures
        res@ == endpoint_text(post_path@, session_id@),
{
    let mut s = post_path.to_owned();
    s.append("?sessionId=");
    s.append(session_id);
    s
}

/// The answer to a POST for a session that was (`known`) or was not found, whose message was
/// (`delivered`) or was not handed to the transport.
pub open spec fn post_outcome(known: bool, delivered: bool) -> PostOutcome {
    if !known {
        PostOutcome::UnknownSession
    } else if delivered {
        PostOutcome::Accepted
    } else {
        PostOutcome::SessionGone
    }
}

/// How a client's POSTed message is answered.
#[derive(Clone, Copy, Debug, PartialEq, Eq, Structural)]
pub enum PostOutcome {
    /// `202 Accepted`: the message reached the session's transport.
    Accepted,
    /// `404 Not Found`: no such session.
    UnknownSession,
    /// `410 Gone`: the session's transport is gone; its stale entry is dropped.
    SessionGone,
}

impl PostOutcome {
    /// The answer to a POST for a session that was (`known`) or was not found, whose message
    /// was (`delivered`) or was not handed to the transport.
    pub fn of(known: bool, delivered: bool) -> (res: PostOutcome)
        ensures
            res == post_outcome(known, delivered),
    {
        if !known {
            PostOutcome::UnknownSession
        } else if delivered {
            PostOutcome::Accepted
        } else {
            PostOutcome::SessionGone
        }
    }

    /// The HTTP status code of the answer.
    pub fn status(&self) -> (res: u16)
        ensures
            res == match *self {
                PostOutcome::Accepted => 202u16,
                PostOutcome::UnknownSession => 404u16,
                PostOutcome::SessionGone => 410u16,
            },
    {
        match self {
            PostOutcome::Accepted => 202,
            PostOutcome::UnknownSession => 404,
            PostOutcome::SessionGone => 410,
        }
    }

    /// Whether the session's entry is dropped from the store.
    pub fn drops_session(&self) -> (res: bool)
        ensures
            res == (*self == PostOutcome::SessionGone),
    {
        match self {
            PostOutcome::SessionGone => true,
            _ => false,
        }
    }
}

/// The open sessions, each id with the channel its client's POSTed messages go to. A session
/// is registered when its SSE stream opens and leaves when the stream closes or is dropped,
/// or when a POST finds its transport gone.
pub struct SessionStore<T> {
    sessions: StrMap<T>,
}

impl<T> SessionStore<T> {
    /// The open sessions by id.
    pub closed spec fn sessions(&self) -> Map<Seq<char>, T> {
        self.sessions.as_map()
    }

    /// A store with no session.
    pub fn new() -> (res: SessionStore<T>)
        ensures
            res.sessions() == Map::<Seq<char>, T>::empty(),
    {
        SessionStore { sessions: StrMap::new() }
    }

    /// Opens the session `id` with the channel `tx`.
    pub fn register(&mut self, id: String, tx: T)
        ensures
            final(self).sessions() == old(self).sessions().insert(id@, tx),
    {
        let _ = self.sessions.insert(id, tx);
    }

    /// Closes the session `id`; a session that is not open is left alone.
    pub fn unregister(&mut self, id: &str)
        ensures
            final(self).sessions() == old(self).sessions().remove(id@),
    {
        let _ = self.sessions.remove(id);
    }

    /// The channel of the open session `id`, if it is open.
    pub fn channel(&self, id: &str) -> (res: Option<&T>)
        ensures
            match res {
                Some(tx) => self.sessions().contains_key(id@) && *tx == self.sessions()[id@],
                None => !self.sessions().contains_key(id@),
            },
    {
        self.sessions.get(id)
    }

    /// Records how a POST for session `id` was answered: a session whose transport is gone
    /// is dropped, and any other answer leaves the store as it was.
    pub fn settle(&mut self, id: &str, outcome: PostOutcome)
        ensures
            final(self).sessions() == (if outcome == PostOutcome::SessionGone {
                old(self).sessions().remove(id@)
            } else {
                old(self).sessions()
            }),
    {
        if outcome.drops_session() {
            let _ = self.sessions.remove(id);
        }
    }
}

/// A session's life: once registered its POSTs reach its channel; once unregistered (its
/// stream closed or dropped) a POST for it is answered `404` whatever else is open, and the
/// other sessions are untouched.
pub proof fn lemma_session_lifecycle<T>(open: Map<Seq<char>, T>, id: Seq<char>, tx: T, delivered: bool)
    ensures
        open.insert(id, tx).contains_key(id) && open.insert(id, tx)[id] == tx,
        !open.insert(id, tx).remove(id).contains_key(id),
        open.insert(id, tx).remove(id) == open.remove(id),
        post_outcome(open.remove(id).contains_key(id), delivered) == PostOutcome::UnknownSession,
{
    assert(open.insert(id, tx).remove(id) =~= open.remove(id));
}

} // verus!
