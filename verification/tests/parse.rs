use yinetd::addr::{parse_ip, IpAddress};
use yinetd::config_types::ProgArgs;
use yinetd::parse::parse_config_str;
use yinetd::service::Service;
use yinetd::{Error, InetType, SocketType};

const PASS_NO_DEFAULT: &str = r#"
service service_a
{
    server = /usr/sbin/service-a
    port = 1234
}
"#;

const PASS_WHITESPACE: &str = "
default {
    \tuid =    42
}

service \t\t\tservice_a

{
    server = /usr/sbin/service-a
    port = \t\t1234
}


";

const PASS_WITH_DEFAULT_UID: &str = r#"
default {
    uid = 42
}

service service_a
{
    server = /usr/sbin/service-a
    port = 1234
}
"#;

const PASS_WITH_DEFAULT_PORT: &str = r#"
default {
    port = 1234
}

service service_a
{
    uid = 42
    server = /usr/sbin/service-a
}
"#;

const PASS_WITH_DEFAULT_OVERRIDE_UID: &str = r#"
default {
    uid = 42
}

service service_a
{
    server = /usr/sbin/service-a
    port = 1234
    uid = 50
}
"#;

const PASS_WITH_DEFAULT_OVERRIDE_PORT_UID: &str = r#"
default {
    uid = 42
    port = 2345
}

service service_a
{
    server = /usr/sbin/service-a
    port = 1234
    uid = 50
}
"#;

const PASS_WITH_MULTI_SERVICE1: &str = r#"
default {
    uid = 42
}

service service_a
{
    server = /usr/sbin/service-a
    port = 1234
}

service service_b
{
    server = /usr/sbin/service-b
    port = 5678
    uid = 0
}
"#;

const PASS_WITH_MULTI_SERVICE2: &str = r#"
default {
    uid = 42
    port = 39847
}

service service_a
{
    server = /usr/sbin/service-a
}

service service_b
{
    server = /usr/sbin/service-b
    port = 5678
    uid = 0
}
"#;

const PASS_SOCKET_DEFAULT_UDP: &str = r#"
default {
    uid = 42
    socket_type = udp
}

service service_a
{
    server = /usr/sbin/service-a
    port = 1234
}

service service_b
{
    server = /usr/sbin/service-b
    port = 5678
    socket_type = tcp
    uid = 0
}
"#;

const PASS_DEFAULT_ADDRESS_IPV4: &str = r#"
service service_a
{
    server = server
    port = 1234
    inet_type = ipv4
}
"#;

const PASS_DEFAULT_ADDRESS_IPV6: &str = r#"
service service_a
{
    server = server
    port = 1234
    inet_type = ipv6
}
"#;

const FAIL_MISSING_REQUIRED_OPTION: &str = r#"
service service_a
{
    port = 1234
    uid = 398
    server = server
}

service service_b
{
    port = 1234
    uid = 398
}
"#;

const FAIL_DUPLICATE_SERVICE: &str = r#"
service service_a
{
    port = 1234
    uid = 398
    server = server
}

service service_a
{
    port = 1234
    uid = 398
    server = another-server
}
"#;

const FAIL_DUPLICATE_OPTIONS_PORT: &str = r#"
service service_a
{
    port = 1234
    uid = 398
    server = server
}

service service_b
{
    port = 1234
    port = 456
    uid = 398
    server = another-server
}
"#;

const FAIL_DUPLICATE_OPTIONS_SERVER: &str = r#"
service service_a
{
    port = 1234
    uid = 398
    server = server
}

service service_b
{
    port = 1234
    uid = 398
    server = another-server
    server = another-server2
}
"#;

const FAIL_BAD_OPTION_PORT: &str = r#"
service service_a
{
    port = 1234abc
    server = server
}
"#;

const FAIL_BAD_OPTION_UID: &str = r#"
service service_a
{
    port = 1234
    server = server
    uid = zero
}
"#;

const FAIL_MISMACH_EXPECT_IPV4: &str = r#"
service service_a
{
    server = server
    port = 1234
    listen_address = fe80::1
    inet_type = ipv4
}
"#;

const FAIL_MISMACH_EXPECT_IPV6: &str = r#"
service service_a
{
    server = server
    port = 1234
    listen_address = 127.0.0.1
    inet_type = ipv6
}
"#;

fn default_service() -> Service {
    Service {
        name: "".to_string(),
        server: "".to_string(),
        port: 0,
        uid: None,
        server_args: ProgArgs(vec![]),
        inet_type: InetType::Ipv4,
        socket_type: SocketType::Tcp,
        listen_address: None,
    }
}

#[test]
fn config_no_default() {
    assert_eq!(
        parse_config_str(PASS_NO_DEFAULT).unwrap().services(),
        [Service {
            name: "service_a".to_string(),
            server: "/usr/sbin/service-a".to_string(),
            port: 1234,
            ..default_service()
        }]
        .as_slice()
    );
}

#[test]
fn config_default() {
    let services = [Service {
        name: "service_a".to_string(),
        server: "/usr/sbin/service-a".to_string(),
        port: 1234,
        uid: Some(42),
        ..default_service()
    }];
    assert_eq!(
        parse_config_str(PASS_WITH_DEFAULT_UID).unwrap().services(),
        services.as_slice()
    );
    assert_eq!(
        parse_config_str(PASS_WITH_DEFAULT_PORT).unwrap().services(),
        services.as_slice()
    );
    assert_eq!(
        parse_config_str(PASS_WHITESPACE).unwrap().services(),
        services.as_slice()
    );
}

#[test]
fn config_default_override() {
    let services = [Service {
        name: "service_a".to_string(),
        server: "/usr/sbin/service-a".to_string(),
        port: 1234,
        uid: Some(50),
        ..default_service()
    }];
    assert_eq!(
        parse_config_str(PASS_WITH_DEFAULT_OVERRIDE_UID)
            .unwrap()
            .services(),
        services.as_slice()
    );
    assert_eq!(
        parse_config_str(PASS_WITH_DEFAULT_OVERRIDE_PORT_UID)
            .unwrap()
            .services(),
        services.as_slice()
    );
}

#[test]
fn config_empty() {
    assert_eq!(parse_config_str("").unwrap().services(), [].as_slice());
}

#[test]
fn config_multi() {
    let service_a = Service {
        name: "service_a".to_string(),
        server: "/usr/sbin/service-a".to_string(),
        port: 1234,
        uid: Some(42),
        ..default_service()
    };
    let service_b = Service {
        name: "service_b".to_string(),
        server: "/usr/sbin/service-b".to_string(),
        port: 5678,
        uid: Some(0),
        ..default_service()
    };
    assert_eq!(
        parse_config_str(PASS_WITH_MULTI_SERVICE1)
            .unwrap()
            .services(),
        [service_a.clone(), service_b.clone()].as_slice()
    );
    assert_eq!(
        parse_config_str(PASS_WITH_MULTI_SERVICE2)
            .unwrap()
            .services(),
        [
            Service {
                port: 39847,
                ..service_a.clone()
            },
            service_b.clone()
        ]
        .as_slice()
    );
    assert_eq!(
        parse_config_str(PASS_SOCKET_DEFAULT_UDP).unwrap().services(),
        [
            Service {
                socket_type: SocketType::Udp,
                ..service_a
            },
            service_b
        ]
        .as_slice()
    );
}

#[test]
fn default_listen_addr() {
    let config_ipv4 = parse_config_str(PASS_DEFAULT_ADDRESS_IPV4).unwrap();
    let service_ipv4 = &config_ipv4.services()[0];
    assert_eq!(
        service_ipv4.socket_addr().unwrap().ip,
        IpAddress::V4(0, 0, 0, 0)
    );

    let config_ipv6 = parse_config_str(PASS_DEFAULT_ADDRESS_IPV6).unwrap();
    let service_ipv6 = &config_ipv6.services()[0];
    assert_eq!(
        service_ipv6.socket_addr().unwrap().ip,
        IpAddress::V6(0, 0, 0, 0, 0, 0, 0, 0)
    );
}

#[test]
fn config_missing_required_option() {
    let err = parse_config_str(FAIL_MISSING_REQUIRED_OPTION).unwrap_err();
    match err {
        Error::MissingRequiredOption {
            context: _,
            option,
            service: _,
        } => assert_eq!(&option, "server"),
        _ => panic!("wrong error: {:?}", err),
    }
}

#[test]
fn config_duplicate_service() {
    let err = parse_config_str(FAIL_DUPLICATE_SERVICE).unwrap_err();
    match err {
        Error::DuplicateService {
            context: _,
            service,
        } => assert_eq!(&service, "service_a"),
        _ => panic!("wrong error: {:?}", err),
    }
}

#[test]
fn config_duplicate_option() {
    let err = parse_config_str(FAIL_DUPLICATE_OPTIONS_PORT).unwrap_err();
    match err {
        Error::DuplicateOption { context: _, option } => assert_eq!(&option, "port"),
        _ => panic!("wrong error: {:?}", err),
    }

    let err = parse_config_str(FAIL_DUPLICATE_OPTIONS_SERVER).unwrap_err();
    match err {
        Error::DuplicateOption { context: _, option } => assert_eq!(&option, "server"),
        _ => panic!("wrong error: {:?}", err),
    }
}

#[test]
fn config_invalid_option() {
    let err = parse_config_str(FAIL_BAD_OPTION_PORT).unwrap_err();
    match err {
        Error::OptionValueParse { context: _, option } => assert_eq!(&option, "port"),
        _ => panic!("wrong error: {:?}", err),
    }

    let err = parse_config_str(FAIL_BAD_OPTION_UID).unwrap_err();
    match err {
        Error::OptionValueParse { context: _, option } => assert_eq!(&option, "uid"),
        _ => panic!("wrong error: {:?}", err),
    }
}

#[test]
fn mismatch_inet_type() {
    let expected_service_name = "service_a";

    let config = &parse_config_str(FAIL_MISMACH_EXPECT_IPV4).unwrap();
    let service = &config.services()[0];
    let err = service.socket_addr().unwrap_err();
    match err {
        Error::InetVersionAddressMismatch {
            expected_type,
            addr,
            service_name,
        } => {
            assert_eq!(expected_type, InetType::Ipv4);
            assert_eq!(addr, parse_ip("fe80::1").unwrap());
            assert_eq!(service_name, expected_service_name);
        }
        _ => panic!("wrong error: {:?}", err),
    }

    let config = &parse_config_str(FAIL_MISMACH_EXPECT_IPV6).unwrap();
    let service = &config.services()[0];
    let err = service.socket_addr().unwrap_err();
    match err {
        Error::InetVersionAddressMismatch {
            expected_type,
            addr,
            service_name,
        } => {
            assert_eq!(expected_type, InetType::Ipv6);
            assert_eq!(addr, parse_ip("127.0.0.1").unwrap());
            assert_eq!(service_name, expected_service_name);
        }
        _ => panic!("wrong error: {:?}", err),
    }
}

#[test]
fn service_order_kept() {
    let text = r#"
service zeta { server = /bin/a
 port = 1
}
service alpha { server = /bin/b
 port = 2
}
service mid { server = /bin/c
 port = 3
}
"#;
    let config = parse_config_str(text).unwrap();
    let names: Vec<&str> = config.services().iter().map(|s| s.name.as_str()).collect();
    assert_eq!(names, vec!["zeta", "alpha", "mid"]);
}

#[test]
fn comments_and_args() {
    let text = "# leading comment\nservice svc # trailing comment\n{\n    server = /bin/cat\n    port = 9000\n    server_args = --foo 'bar baz'\n}\n";
    let config = parse_config_str(text).unwrap();
    let svc = &config.services()[0];
    assert_eq!(svc.server, "/bin/cat");
    assert_eq!(svc.port, 9000);
    assert_eq!(
        svc.server_args,
        ProgArgs(vec!["--foo".to_string(), "bar baz".to_string()])
    );
}

#[test]
fn default_after_service_applies() {
    let text = r#"
service service_a
{
    server = /usr/sbin/service-a
    port = 1234
}

default {
    uid = 7
}
"#;
    let config = parse_config_str(text).unwrap();
    assert_eq!(config.services()[0].uid, Some(7));
}

#[test]
fn unknown_key_rejected() {
    let text = "service s { server = /bin/x\n port = 1\n color = blue\n}\n";
    let err = parse_config_str(text).unwrap_err();
    match err {
        Error::Parse { context } => {
            assert!(context.message.contains("Invalid key \"color\""));
            assert!(context.message.contains("server"));
        }
        _ => panic!("wrong error: {:?}", err),
    }
}

#[test]
fn syntax_error_located() {
    let err = parse_config_str("service service_a\n").unwrap_err();
    match err {
        Error::Parse { context } => {
            assert_eq!(context.message, "unexpected input");
        }
        _ => panic!("wrong error: {:?}", err),
    }
}

#[test]
fn listen_address_parsed() {
    let text = "service s { server = /bin/x\n port = 8\n listen_address = 10.0.0.1\n}\n";
    let config = parse_config_str(text).unwrap();
    assert_eq!(
        config.services()[0].listen_address,
        Some(IpAddress::V4(10, 0, 0, 1))
    );
    let sa = config.services()[0].socket_addr().unwrap();
    assert_eq!(sa.ip, IpAddress::V4(10, 0, 0, 1));
    assert_eq!(sa.port, 8);
}

#[test]
fn has_service_reports_names() {
    let config = parse_config_str(PASS_WITH_MULTI_SERVICE1).unwrap();
    assert!(config.has_service("service_a"));
    assert!(config.has_service("service_b"));
    assert!(!config.has_service("service_c"));
}

#[test]
fn default_block_checked_like_services() {
    let dup = "default {\n uid = 1\n uid = 2\n}\n";
    match parse_config_str(dup).unwrap_err() {
        Error::DuplicateOption { option, .. } => assert_eq!(&option, "uid"),
        err => panic!("wrong error: {:?}", err),
    }

    let unknown = "default {\n color = blue\n}\n";
    match parse_config_str(unknown).unwrap_err() {
        Error::Parse { context } => assert!(context.message.contains("Invalid key \"color\"")),
        err => panic!("wrong error: {:?}", err),
    }
}

#[test]
fn empty_body_misses_server() {
    let err = parse_config_str("service s\n{\n}\n").unwrap_err();
    match err {
        Error::MissingRequiredOption { option, service, .. } => {
            assert_eq!(&option, "server");
            assert_eq!(&service, "s");
        }
        _ => panic!("wrong error: {:?}", err),
    }
}

#[test]
fn port_bounds_in_config() {
    let zero = "service s {\n server = /bin/x\n port = 0\n}\n";
    match parse_config_str(zero).unwrap_err() {
        Error::OptionValueParse { option, context } => {
            assert_eq!(&option, "port");
            assert_eq!(context.message, "out of range");
        }
        err => panic!("wrong error: {:?}", err),
    }

    let top = "service s {\n server = /bin/x\n port = 65535\n}\n";
    assert_eq!(parse_config_str(top).unwrap().services()[0].port, 65535);
}

#[test]
fn value_runs_to_end_of_line() {
    let text = "service s {\n server = /bin/x --flag value\n port = 1\n}\n";
    let config = parse_config_str(text).unwrap();
    assert_eq!(config.services()[0].server, "/bin/x --flag value");
}

#[test]
fn round_trip() {
    let texts = [
        PASS_NO_DEFAULT,
        PASS_WITH_DEFAULT_UID,
        PASS_WITH_MULTI_SERVICE2,
        PASS_SOCKET_DEFAULT_UDP,
        "service full {\n server = /bin/cat\n port = 9999\n inet_type = ipv6\n listen_address = fe80::1\n uid = 12\n server_args = --foo 'bar baz'\n}\n",
    ];
    for text in texts {
        let config = parse_config_str(text).unwrap();
        let printed = config.to_text().unwrap();
        let reparsed = parse_config_str(&printed).unwrap();
        assert_eq!(config.services(), reparsed.services());
    }
}

#[test]
fn error_rendering_with_path() {
    let err = parse_config_str(FAIL_DUPLICATE_OPTIONS_PORT).unwrap_err();
    let err = err.with_path("/etc/yinetd.conf");
    let rendered = err.render();
    assert!(rendered.starts_with("duplicate option \"port\""));
    assert!(rendered.contains("/etc/yinetd.conf:12:5"));
    assert!(rendered.contains("    port = 456"));
    assert!(rendered.contains("^^^^"));
}
