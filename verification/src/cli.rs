//! Shared server configuration: mode selection (`--stdio`/`--sse`/`--mcp`/`--web`), listen
//! addresses, port and authentication. The command-line parser fills [`ServerArgs`];
//! [`ServerConfig`] is the plain equivalent for callers that configure a server
//! programmatically.

use vstd::prelude::*;

verus! {

/// An IP address to listen on.
#[derive(Clone, Copy, Debug, PartialEq, Eq, Structural)]
pub enum IpAddress {
    /// An IPv4 address, by octets.
    V4(u8, u8, u8, u8),
    /// An IPv6 address, by 16-bit segments.
    V6(u16, u16, u16, u16, u16, u16, u16, u16),
}

/// The IPv4 loopback address `127.0.0.1`.
pub open spec fn loopback_v4() -> IpAddress {
    IpAddress::V4(127, 0, 0, 1)
}

/// The IPv6 loopback address `::1`.
pub open spec fn loopback_v6() -> IpAddress {
    IpAddress::V6(0, 0, 0, 0, 0, 0, 0, 1)
}

/// The default listen addresses: loopback only, IPv4 and IPv6.
pub open spec fn default_listen_addrs() -> Seq<IpAddress> {
    seq![loopback_v4(), loopback_v6()]
}

/// The listen addresses a configuration asks for: the given ones, or loopback when none.
pub open spec fn effective_listen(given: Seq<IpAddress>) -> Seq<IpAddress> {
    if given.len() == 0 {
        default_listen_addrs()
    } else {
        given
    }
}

/// Every given address is listened on, as given and in order, however many there are; only
/// when none is given does the server listen on loopback, `127.0.0.1` and `::1`.
pub proof fn lemma_given_addresses_kept(given: Seq<IpAddress>)
    ensures
        given.len() > 0 ==> effective_listen(given) == given,
        given.len() > 0 ==> effective_listen(given).len() == given.len(),
        given.len() == 0 ==> effective_listen(given) == seq![
            IpAddress::V4(127, 0, 0, 1),
            IpAddress::V6(0, 0, 0, 0, 0, 0, 0, 1),
        ],
{
}

/// The default listen addresses: loopback only (IPv4 + IPv6).
pub fn default_listen() -> (res: Vec<IpAddress>)
    ensures
        res@ == default_listen_addrs(),
{
    let mut v: Vec<IpAddress> = Vec::new();
    v.push(IpAddress::V4(127, 0, 0, 1));
    v.push(IpAddress::V6(0, 0, 0, 0, 0, 0, 0, 1));
    assert(v@ =~= default_listen_addrs());
    v
}

fn copy_addrs(addrs: &Vec<IpAddress>) -> (res: Vec<IpAddress>)
    ensures
        res@ == addrs@,
{
    let mut v: Vec<IpAddress> = Vec::new();
    let mut i: usize = 0;
    while i < addrs.len()
        invariant
            i <= addrs.len(),
            v@ == addrs@.take(i as int),
        decreases addrs.len() - i,
    {
        v.push(addrs[i]);
        assert(addrs@.take(i + 1) =~= addrs@.take(i as int).push(addrs@[i as int]));
        i = i + 1;
    }
    assert(addrs@.take(addrs.len() as int) =~= addrs@);
    v
}

/// Shared server flags. Mode is opt-in: `stdio` (exclusive: MCP over stdin/stdout), `sse`
/// (legacy HTTP+SSE), `mcp` (Streamable HTTP) and `web` (frontend and REST API).
pub struct ServerArgs {
    /// Force MCP over stdio (exclusive with the HTTP modes).
    pub stdio: bool,
    /// Serve the MCP SSE endpoint over HTTP.
    pub sse: bool,
    /// Serve MCP over Streamable HTTP (`/mcp`).
    pub mcp: bool,
    /// Serve the web frontend and REST API over HTTP.
    pub web: bool,
    /// With no mode flag and a non-TTY stdin, how many milliseconds to wait for an MCP client
    /// to initialize over stdin.
    pub wait: u64,
    /// HTTP port for the HTTP modes.
    pub http_port: u16,
    /// Addresses to listen on; loopback when none is given.
    pub http_listen: Vec<IpAddress>,
    /// Authentication token; enables auth when set.
    pub auth_token: Option<String>,
    /// Directory of static files to serve in web mode.
    pub static_dir: Option<String>,
}

impl ServerArgs {
    /// The configured listen addresses, falling back to loopback (v4 + v6) when none given.
    pub fn listen_addrs(&self) -> (res: Vec<IpAddress>)
        ensures
            res@ == effective_listen(self.http_listen@),
    {
        if self.http_listen.len() == 0 {
            default_listen()
        } else {
            copy_addrs(&self.http_listen)
        }
    }
}

/// The programmatic equivalent of [`ServerArgs`]; `wait` is in milliseconds.
pub struct ServerConfig {
    pub stdio: bool,
    pub sse: bool,
    pub mcp: bool,
    pub web: bool,
    pub wait: u64,
    pub http_port: u16,
    pub http_listen: Vec<IpAddress>,
    pub auth_token: Option<String>,
    pub static_dir: Option<String>,
}

impl Default for ServerConfig {
    /// No mode, a 100 ms stdin wait, port 8080, loopback listen addresses, no token, no
    /// static directory.
    fn default() -> (res: ServerConfig)
        ensures
            !res.stdio && !res.sse && !res.mcp && !res.web,
            res.wait == 100,
            res.http_port == 8080,
            res.http_listen@ == default_listen_addrs(),
            res.auth_token is None,
            res.static_dir is None,
    {
        ServerConfig {
            stdio: false,
            sse: false,
            mcp: false,
            web: false,
            wait: 100,
            http_port: 8080,
            http_listen: default_listen(),
            auth_token: None,
            static_dir: None,
        }
    }
}

impl ServerConfig {
    /// The configuration the parsed flags stand for; the listen addresses fall back to
    /// loopback when none was given.
    pub fn from_args(a: ServerArgs) -> (res: ServerConfig)
        ensures
            res.stdio == a.stdio,
            res.sse == a.sse,
            res.mcp == a.mcp,
            res.web == a.web,
            res.wait == a.wait,
            res.http_port == a.http_port,
            res.http_listen@ == effective_listen(a.http_listen@),
            res.auth_token == a.auth_token,
            res.static_dir == a.static_dir,
    {
        let http_listen = a.listen_addrs();
        ServerConfig {
            stdio: a.stdio,
            sse: a.sse,
            mcp: a.mcp,
            web: a.web,
            wait: a.wait,
            http_port: a.http_port,
            http_listen,
            auth_token: a.auth_token,
            static_dir: a.static_dir,
        }
    }
}

} // verus!
