use yinetd::config_types::{parse_port_value, parse_u32_value};
use yinetd::{InetType, ProgArgs, SocketType};

#[test]
fn socket_type() {
    assert_eq!(SocketType::from_str("tcp"), Ok(SocketType::Tcp));
    assert_eq!(SocketType::from_str("UDP"), Ok(SocketType::Udp));
    assert!(SocketType::from_str("blah").is_err());
}

#[test]
fn config_types_socket_type() {
    assert_eq!(SocketType::from_str("tcp"), Ok(SocketType::Tcp));
    assert_eq!(SocketType::from_str("UDP"), Ok(SocketType::Udp));
    assert!(SocketType::from_str("blah").is_err());
}

#[test]
fn prog_args() {
    assert_eq!(ProgArgs::from_str(""), Ok(ProgArgs(vec![])));
    assert_eq!(
        ProgArgs::from_str("simple"),
        Ok(ProgArgs(vec!["simple".to_string()]))
    );
    assert_eq!(
        ProgArgs::from_str("\t\t  arg1 arg2\targ3  "),
        Ok(ProgArgs(vec![
            "arg1".to_string(),
            "arg2".to_string(),
            "arg3".to_string()
        ]))
    );
    assert_eq!(
        ProgArgs::from_str(r#"'arg1 with spaces' arg2\ with\ \ spaces "with quotes""#),
        Ok(ProgArgs(vec![
            "arg1 with spaces".to_string(),
            "arg2 with  spaces".to_string(),
            "with quotes".to_string(),
        ]))
    );
}

#[test]
fn config_types_prog_args() {
    assert_eq!(ProgArgs::from_str(""), Ok(ProgArgs(vec![])));
    assert_eq!(
        ProgArgs::from_str("simple"),
        Ok(ProgArgs(vec!["simple".to_string()]))
    );
    assert_eq!(
        ProgArgs::from_str("\t\t  arg1 arg2\targ3  "),
        Ok(ProgArgs(vec![
            "arg1".to_string(),
            "arg2".to_string(),
            "arg3".to_string()
        ]))
    );
    assert_eq!(
        ProgArgs::from_str(r#"'arg1 with spaces' arg2\ with\ \ spaces "with quotes""#),
        Ok(ProgArgs(vec![
            "arg1 with spaces".to_string(),
            "arg2 with  spaces".to_string(),
            "with quotes".to_string(),
        ]))
    );
}

#[test]
fn inet_type() {
    assert_eq!(InetType::from_str("ipv4"), Ok(InetType::Ipv4));
    assert_eq!(InetType::from_str("IPv4"), Ok(InetType::Ipv4));
    assert_eq!(InetType::from_str("ipv6"), Ok(InetType::Ipv6));
    assert_eq!(InetType::from_str("IPv6"), Ok(InetType::Ipv6));
    assert!(InetType::from_str("IPv99").is_err());
}

#[test]
fn port_values() {
    assert_eq!(parse_port_value("1234"), Ok(1234));
    assert_eq!(parse_port_value("65535"), Ok(65535));
    assert_eq!(parse_port_value("0"), Err("out of range"));
    assert_eq!(parse_port_value("65536"), Err("out of range"));
    assert_eq!(parse_port_value("12ab"), Err("invalid digit"));
    assert_eq!(parse_port_value(""), Err("invalid digit"));
}

#[test]
fn uid_values() {
    assert_eq!(parse_u32_value("0"), Ok(0));
    assert_eq!(parse_u32_value("398"), Ok(398));
    assert_eq!(parse_u32_value("4294967295"), Ok(4294967295));
    assert_eq!(parse_u32_value("4294967296"), Err("out of range"));
    assert_eq!(parse_u32_value("zero"), Err("invalid digit"));
}
