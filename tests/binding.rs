use nix_upload_daemon::binding::{parse_binding, Binding, BindingParser, ParseBindingError};

fn unix_path(b: &Binding) -> String {
    match b {
        Binding::Unix(p) => p.clone(),
        Binding::Tcp(_) => panic!("expected a socket binding"),
    }
}

fn tcp_parts(b: &Binding) -> (String, u16) {
    match b {
        Binding::Tcp(a) => (a.host.clone(), a.port),
        Binding::Unix(_) => panic!("expected a network binding"),
    }
}

#[test]
fn parses_socket_binding() {
    let b = parse_binding("sock:///tmp/test.sock").ok().unwrap();
    assert_eq!(unix_path(&b), "/tmp/test.sock");
}

#[test]
fn parses_tcp_bindings() {
    let b = parse_binding("tcp://127.0.0.1:8080").ok().unwrap();
    assert_eq!(tcp_parts(&b), ("127.0.0.1".to_string(), 8080));
    let b = parse_binding("tcp4://10.0.0.1:1").ok().unwrap();
    assert_eq!(tcp_parts(&b), ("10.0.0.1".to_string(), 1));
    let b = parse_binding("tcp6://[::1]:65535").ok().unwrap();
    assert_eq!(tcp_parts(&b), ("[::1]".to_string(), 65535));
}

#[test]
fn scheme_is_case_insensitive() {
    let b = parse_binding("TCP://10.1.2.3:22").ok().unwrap();
    assert_eq!(tcp_parts(&b), ("10.1.2.3".to_string(), 22));
}

#[test]
fn rejects_malformed_url() {
    assert!(matches!(parse_binding("not a url"), Err(ParseBindingError::InvalidUrl(_))));
    assert!(matches!(parse_binding(""), Err(ParseBindingError::InvalidUrl(_))));
}

#[test]
fn rejects_unknown_scheme() {
    match parse_binding("http://localhost:80") {
        Err(ParseBindingError::UnknownScheme(s)) => assert_eq!(s, "http"),
        _ => panic!("expected an unknown scheme"),
    }
}

#[test]
fn rejects_bad_addresses() {
    for (text, rest) in [
        ("tcp://127.0.0.1", "127.0.0.1"),
        ("tcp://127.0.0.1:", "127.0.0.1:"),
        ("tcp:///tmp/x", "/tmp/x"),
        ("tcp://1.2.3.4:80/", "1.2.3.4:80/"),
    ] {
        match parse_binding(text) {
            Err(ParseBindingError::InvalidAddress(p)) => assert_eq!(p, rest),
            _ => panic!("expected an invalid address for {text}"),
        }
    }
}

#[test]
fn host_must_be_an_ip_literal() {
    for (text, rest) in [
        ("tcp://!!!:80", "!!!:80"),
        ("tcp://localhost:80", "localhost:80"),
        ("tcp://example.org:22", "example.org:22"),
        ("tcp://256.1.1.1:80", "256.1.1.1:80"),
        ("tcp://01.2.3.4:1", "01.2.3.4:1"),
        ("tcp://1.2.3:1", "1.2.3:1"),
        ("tcp://1.2.3.4.5:1", "1.2.3.4.5:1"),
        ("tcp://1..3.4:1", "1..3.4:1"),
    ] {
        match parse_binding(text) {
            Err(ParseBindingError::InvalidAddress(p)) => assert_eq!(p, rest),
            _ => panic!("expected an invalid address for {text}"),
        }
    }
}

#[test]
fn accepts_ip_literals() {
    for (text, host) in [
        ("tcp://0.0.0.0:1", "0.0.0.0"),
        ("tcp://255.255.255.255:1", "255.255.255.255"),
        ("tcp6://[::]:1", "[::]"),
        ("tcp6://[1:2:3:4:5:6:7:8]:1", "[1:2:3:4:5:6:7:8]"),
        ("tcp6://[fe80::1:abcd]:1", "[fe80::1:abcd]"),
        ("tcp6://[1::]:1", "[1::]"),
        ("tcp6://[::ffff:1.2.3.4]:1", "[::ffff:1.2.3.4]"),
        ("tcp6://[1:2:3:4:5:6:7.8.9.10]:1", "[1:2:3:4:5:6:7.8.9.10]"),
        ("tcp6://[::1.2.3.4]:1", "[::1.2.3.4]"),
    ] {
        let b = parse_binding(text).ok().unwrap();
        assert_eq!(tcp_parts(&b), (host.to_string(), 1));
    }
}

#[test]
fn out_of_range_port_is_not_a_url() {
    assert!(matches!(parse_binding("tcp://127.0.0.1:65536"), Err(ParseBindingError::InvalidUrl(_))));
    assert!(matches!(parse_binding("tcp://1.2.3.4:8x"), Err(ParseBindingError::InvalidUrl(_))));
}

#[test]
fn leading_zeros_in_port() {
    let b = parse_binding("tcp://9.8.7.6:00080").ok().unwrap();
    assert_eq!(tcp_parts(&b), ("9.8.7.6".to_string(), 80));
}

#[test]
fn formats_bindings() {
    let b = parse_binding("sock:///run/d.sock").ok().unwrap();
    assert_eq!(b.to_uri(), "sock:///run/d.sock");
    let b = parse_binding("tcp6://[::1]:0080").ok().unwrap();
    assert_eq!(b.to_uri(), "tcp://[::1]:80");
}

#[test]
fn round_trip_through_text() {
    for text in [
        "sock:///tmp/test.sock",
        "tcp://127.0.0.1:8080",
        "tcp4://192.168.1.2:9",
        "tcp6://[fe80::1]:443",
    ] {
        let b = parse_binding(text).ok().unwrap();
        let again = parse_binding(&b.to_uri()).ok().unwrap();
        assert_eq!(again.to_uri(), b.to_uri());
        match (&b, &again) {
            (Binding::Unix(p), Binding::Unix(q)) => assert_eq!(p, q),
            (Binding::Tcp(a), Binding::Tcp(c)) => {
                assert_eq!(a.host, c.host);
                assert_eq!(a.port, c.port);
            }
            _ => panic!("kind changed"),
        }
    }
}

#[test]
fn from_str_reports_each_error() {
    assert!(matches!("not a url".parse::<Binding>(), Err(ParseBindingError::InvalidUrl(_))));
    assert!(matches!("tcp://!!!:80".parse::<Binding>(), Err(ParseBindingError::InvalidAddress(_))));
    match "http://example.com".parse::<Binding>() {
        Err(ParseBindingError::UnknownScheme(s)) => assert_eq!(s, "http"),
        _ => panic!("expected an unknown scheme"),
    }
    let b: Binding = "tcp6://[::1]:9000".parse().ok().unwrap();
    assert_eq!(tcp_parts(&b), ("[::1]".to_string(), 9000));
}

#[test]
fn parser_and_from_str_agree() {
    let b: Binding = "sock:///x".parse().ok().unwrap();
    assert_eq!(unix_path(&b), "/x");
    let c = BindingParser.parse("sock:///x").ok().unwrap();
    assert_eq!(unix_path(&c), "/x");
}
