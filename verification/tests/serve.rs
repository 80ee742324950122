use holons::serve::parse_flags;
use holons::transport::{parse_uri, DEFAULT_URI};

#[test]
fn test_parse_listen() {
    let args: Vec<String> = vec!["--listen".into(), "tcp://:8080".into()];
    assert_eq!(parse_flags(&args), "tcp://:8080");
}

#[test]
fn test_parse_port() {
    let args: Vec<String> = vec!["--port".into(), "3000".into()];
    assert_eq!(parse_flags(&args), "tcp://:3000");
}

#[test]
fn test_parse_default() {
    let args: Vec<String> = vec![];
    assert_eq!(parse_flags(&args), DEFAULT_URI);
}

#[test]
fn flag_without_value_is_ignored() {
    let args: Vec<String> = vec!["--listen".into()];
    assert_eq!(parse_flags(&args), DEFAULT_URI);
    let args: Vec<String> = vec!["--port".into()];
    assert_eq!(parse_flags(&args), DEFAULT_URI);
}

#[test]
fn first_flag_with_value_wins() {
    let args: Vec<String> = vec![
        "serve".into(),
        "--port".into(),
        "7000".into(),
        "--listen".into(),
        "unix:///tmp/a.sock".into(),
    ];
    assert_eq!(parse_flags(&args), "tcp://:7000");
    let args: Vec<String> = vec![
        "--listen".into(),
        "mem://".into(),
        "--port".into(),
        "7000".into(),
    ];
    assert_eq!(parse_flags(&args), "mem://");
}

#[test]
fn unrelated_args_give_default() {
    let args: Vec<String> = vec!["-v".into(), "--listen=tcp://:1".into(), "x".into()];
    assert_eq!(parse_flags(&args), "tcp://:9090");
}

#[test]
fn port_flag_parses_to_any_interface() {
    let args: Vec<String> = vec!["--port".into(), "3000".into(), "extra".into()];
    let uri = parse_flags(&args);
    let parsed = parse_uri(&uri).unwrap();
    assert_eq!(parsed.scheme, "tcp");
    assert_eq!(parsed.host.as_deref(), Some("0.0.0.0"));
    assert_eq!(parsed.port, Some(3000));
}

#[test]
fn listen_flag_selects_value_verbatim() {
    let args: Vec<String> = vec!["--listen".into(), "ws://h:1/p".into(), "--port".into()];
    assert_eq!(parse_flags(&args), "ws://h:1/p");
}
