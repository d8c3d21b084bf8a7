use mcp_core::cli::{default_listen, IpAddress, ServerArgs, ServerConfig};

#[test]
fn listen_defaults_to_loopback_v4_and_v6() {
    let cfg = ServerConfig::default();
    assert!(cfg.http_listen.contains(&IpAddress::V4(127, 0, 0, 1)));
    assert!(cfg.http_listen.contains(&IpAddress::V6(0, 0, 0, 0, 0, 0, 0, 1)));
    assert_eq!(cfg.http_port, 8080);
}

fn args(listen: Vec<IpAddress>) -> ServerArgs {
    ServerArgs {
        stdio: false,
        sse: true,
        mcp: true,
        web: false,
        wait: 250,
        http_port: 9000,
        http_listen: listen,
        auth_token: Some("t".to_string()),
        static_dir: None,
    }
}

#[test]
fn listen_addrs_fall_back_to_loopback() {
    assert_eq!(args(vec![]).listen_addrs(), default_listen());
    let given = vec![IpAddress::V4(0, 0, 0, 0)];
    assert_eq!(args(given.clone()).listen_addrs(), given);
}

#[test]
fn config_from_args_keeps_every_flag() {
    let cfg = ServerConfig::from_args(args(vec![]));
    assert!(cfg.sse && cfg.mcp && !cfg.stdio && !cfg.web);
    assert_eq!(cfg.wait, 250);
    assert_eq!(cfg.http_port, 9000);
    assert_eq!(cfg.http_listen, default_listen());
    assert_eq!(cfg.auth_token.as_deref(), Some("t"));
    assert_eq!(ServerConfig::default().wait, 100);
}
