use holons::transport::{
    listen_plan, parse_uri, scheme, split_host_port, ListenPlan, DEFAULT_URI,
};

#[test]
fn test_scheme() {
    assert_eq!(scheme("tcp://:9090"), "tcp");
    assert_eq!(scheme("unix:///tmp/x.sock"), "unix");
    assert_eq!(scheme("stdio://"), "stdio");
    assert_eq!(scheme("mem://"), "mem");
    assert_eq!(scheme("ws://host:8080"), "ws");
    assert_eq!(scheme("wss://host:443"), "wss");
}

#[test]
fn test_default_uri() {
    assert_eq!(DEFAULT_URI, "tcp://:9090");
}

#[test]
fn test_parse_uri_wss() {
    let parsed = parse_uri("wss://example.com:8443").unwrap();
    assert_eq!(parsed.scheme, "wss");
    assert_eq!(parsed.host.as_deref(), Some("example.com"));
    assert_eq!(parsed.port, Some(8443));
    assert_eq!(parsed.path.as_deref(), Some("/grpc"));
    assert!(parsed.secure);
}

#[test]
fn scheme_without_separator_is_whole_uri() {
    assert_eq!(scheme("tcp"), "tcp");
    assert_eq!(scheme(""), "");
    assert_eq!(scheme("a:/b://c://d"), "a:/b");
    assert_eq!(scheme("\u{e9}t\u{e9}://x"), "\u{e9}t\u{e9}");
}

#[test]
fn default_uri_parses_to_any_interface() {
    let parsed = parse_uri(DEFAULT_URI).unwrap();
    assert_eq!(parsed.raw, "tcp://:9090");
    assert_eq!(parsed.scheme, "tcp");
    assert_eq!(parsed.host.as_deref(), Some("0.0.0.0"));
    assert_eq!(parsed.port, Some(9090));
    assert_eq!(parsed.path, None);
    assert!(!parsed.secure);
}

#[test]
fn tcp_uris() {
    let p = parse_uri("tcp://127.0.0.1:8080").unwrap();
    assert_eq!(p.host.as_deref(), Some("127.0.0.1"));
    assert_eq!(p.port, Some(8080));
    let p = parse_uri("tcp://").unwrap();
    assert_eq!(p.host.as_deref(), Some("0.0.0.0"));
    assert_eq!(p.port, Some(9090));
    let p = parse_uri("tcp://example.org").unwrap();
    assert_eq!(p.host.as_deref(), Some("example.org"));
    assert_eq!(p.port, Some(9090));
    let p = parse_uri("tcp://[::1]:80").unwrap();
    assert_eq!(p.host.as_deref(), Some("[::1]"));
    assert_eq!(p.port, Some(80));
    let p = parse_uri("tcp://h:").unwrap();
    assert_eq!(p.host.as_deref(), Some("h"));
    assert_eq!(p.port, Some(9090));
    let p = parse_uri("tcp://h:+81").unwrap();
    assert_eq!(p.port, Some(81));
    let p = parse_uri("tcp://h:0065535").unwrap();
    assert_eq!(p.port, Some(65535));
}

#[test]
fn tcp_errors() {
    assert_eq!(parse_uri("tcp").unwrap_err(), "invalid tcp URI: \"tcp\"");
    assert_eq!(
        parse_uri("tcp://h:abc").unwrap_err(),
        "invalid port in URI: \"h:abc\""
    );
    assert_eq!(
        parse_uri("tcp://h:65536").unwrap_err(),
        "invalid port in URI: \"h:65536\""
    );
    assert_eq!(
        parse_uri("tcp://h:-1").unwrap_err(),
        "invalid port in URI: \"h:-1\""
    );
    assert_eq!(parse_uri("tcp://h:+").unwrap_err(), "invalid port in URI: \"h:+\"");
    assert_eq!(
        parse_uri("tcp://h: 80").unwrap_err(),
        "invalid port in URI: \"h: 80\""
    );
}

#[test]
fn unix_uris() {
    let p = parse_uri("unix:///tmp/x.sock").unwrap();
    assert_eq!(p.raw, "unix:///tmp/x.sock");
    assert_eq!(p.scheme, "unix");
    assert_eq!(p.path.as_deref(), Some("/tmp/x.sock"));
    assert_eq!(p.host, None);
    assert_eq!(p.port, None);
    assert_eq!(parse_uri("unix://").unwrap_err(), "invalid unix URI: \"unix://\"");
    assert_eq!(parse_uri("unix").unwrap_err(), "invalid unix URI: \"unix\"");
}

#[test]
fn stdio_and_mem_uris() {
    let p = parse_uri("stdio://ignored").unwrap();
    assert_eq!(p.raw, "stdio://");
    assert_eq!(p.scheme, "stdio");
    let p = parse_uri("stdio").unwrap();
    assert_eq!(p.raw, "stdio://");
    let p = parse_uri("mem").unwrap();
    assert_eq!(p.raw, "mem://");
    assert_eq!(p.scheme, "mem");
    let p = parse_uri("mem://named").unwrap();
    assert_eq!(p.raw, "mem://named");
}

#[test]
fn ws_uris() {
    let p = parse_uri("ws://127.0.0.1:8080/grpc").unwrap();
    assert_eq!(p.scheme, "ws");
    assert_eq!(p.host.as_deref(), Some("127.0.0.1"));
    assert_eq!(p.port, Some(8080));
    assert_eq!(p.path.as_deref(), Some("/grpc"));
    assert!(!p.secure);
    let p = parse_uri("ws://h").unwrap();
    assert_eq!(p.port, Some(80));
    assert_eq!(p.path.as_deref(), Some("/grpc"));
    let p = parse_uri("wss://h/a/b").unwrap();
    assert_eq!(p.port, Some(443));
    assert_eq!(p.path.as_deref(), Some("/a/b"));
    assert!(p.secure);
    let p = parse_uri("ws:///x").unwrap();
    assert_eq!(p.host.as_deref(), Some("0.0.0.0"));
    assert_eq!(p.path.as_deref(), Some("/x"));
    assert_eq!(parse_uri("ws").unwrap_err(), "invalid ws URI: \"ws\"");
    assert_eq!(
        parse_uri("wss://h:x/p").unwrap_err(),
        "invalid port in URI: \"h:x\""
    );
}

#[test]
fn unsupported_uris() {
    assert_eq!(
        parse_uri("ftp://host").unwrap_err(),
        "unsupported transport URI: \"ftp://host\""
    );
    assert_eq!(
        parse_uri("say \"hi\"\n").unwrap_err(),
        "unsupported transport URI: \"say \\\"hi\\\"\\n\""
    );
}

#[test]
fn split_host_port_cases() {
    assert_eq!(split_host_port("", 7).unwrap(), ("0.0.0.0".to_string(), 7));
    assert_eq!(split_host_port("host", 7).unwrap(), ("host".to_string(), 7));
    assert_eq!(split_host_port(":", 7).unwrap(), ("0.0.0.0".to_string(), 7));
    assert_eq!(split_host_port("a:b:12", 7).unwrap(), ("a:b".to_string(), 12));
    assert!(split_host_port("a:99999", 7).is_err());
}

#[test]
fn written_tcp_uri_round_trips() {
    let p = parse_uri("tcp://h:x:1234").unwrap();
    assert_eq!(p.host.as_deref(), Some("h:x"));
    assert_eq!(p.port, Some(1234));
    let p = parse_uri("wss://h:0/").unwrap();
    assert_eq!(p.host.as_deref(), Some("h"));
    assert_eq!(p.port, Some(0));
    assert_eq!(p.path.as_deref(), Some("/"));
}

#[test]
fn test_ws_surface_listen() {
    match listen_plan("ws://127.0.0.1:8080/grpc").unwrap() {
        ListenPlan::Ws(ws) => {
            assert_eq!(ws.host, "127.0.0.1");
            assert_eq!(ws.port, 8080);
            assert_eq!(ws.path, "/grpc");
            assert!(!ws.secure);
        }
        other => panic!("expected Ws listener, got {:?}", other),
    }
}

#[test]
fn test_unsupported_uri() {
    let result = listen_plan("ftp://host");
    assert!(result.is_err());
    assert_eq!(
        listen_plan("ftp://host").unwrap_err(),
        "unsupported transport URI: \"ftp://host\""
    );
    assert!(listen_plan("tcp://h:x").is_err());
}

#[test]
fn listen_plan_other_schemes() {
    match listen_plan("tcp://127.0.0.1:0").unwrap() {
        ListenPlan::Tcp(addr) => assert_eq!(addr, "127.0.0.1:0"),
        other => panic!("expected Tcp listener, got {:?}", other),
    }
    match listen_plan("tcp://:65535").unwrap() {
        ListenPlan::Tcp(addr) => assert_eq!(addr, "0.0.0.0:65535"),
        other => panic!("expected Tcp listener, got {:?}", other),
    }
    match listen_plan("unix:///tmp/holons_test_rust.sock").unwrap() {
        ListenPlan::Unix(path) => assert_eq!(path, "/tmp/holons_test_rust.sock"),
        other => panic!("expected Unix listener, got {:?}", other),
    }
    assert!(matches!(listen_plan("mem://").unwrap(), ListenPlan::Mem));
    assert!(matches!(listen_plan("stdio://").unwrap(), ListenPlan::Stdio));
    match listen_plan("wss://h").unwrap() {
        ListenPlan::Ws(ws) => {
            assert_eq!(ws.port, 443);
            assert!(ws.secure);
        }
        other => panic!("expected Ws listener, got {:?}", other),
    }
}
