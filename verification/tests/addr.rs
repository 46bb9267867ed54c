use yinetd::addr::{parse_ip, IpAddress};

#[test]
fn ipv4_addresses() {
    assert_eq!(parse_ip("0.0.0.0"), Ok(IpAddress::V4(0, 0, 0, 0)));
    assert_eq!(parse_ip("127.0.0.1"), Ok(IpAddress::V4(127, 0, 0, 1)));
    assert_eq!(parse_ip("255.255.255.255"), Ok(IpAddress::V4(255, 255, 255, 255)));
    assert!(parse_ip("1.2.3.256").is_err());
    assert!(parse_ip("1.2.3").is_err());
    assert!(parse_ip("1.2.3.4.5").is_err());
    assert!(parse_ip("01.2.3.4").is_err());
    assert!(parse_ip("1.2.3.4 ").is_err());
}

#[test]
fn ipv6_addresses() {
    assert_eq!(parse_ip("::"), Ok(IpAddress::V6(0, 0, 0, 0, 0, 0, 0, 0)));
    assert_eq!(parse_ip("::1"), Ok(IpAddress::V6(0, 0, 0, 0, 0, 0, 0, 1)));
    assert_eq!(
        parse_ip("fe80::1"),
        Ok(IpAddress::V6(0xfe80, 0, 0, 0, 0, 0, 0, 1))
    );
    assert_eq!(
        parse_ip("1:2:3:4:5:6:7:8"),
        Ok(IpAddress::V6(1, 2, 3, 4, 5, 6, 7, 8))
    );
    assert_eq!(
        parse_ip("2001:db8::ff00:42:8329"),
        Ok(IpAddress::V6(0x2001, 0xdb8, 0, 0, 0, 0xff00, 0x42, 0x8329))
    );
    assert_eq!(
        parse_ip("1:2:3:4:5:6:7::"),
        Ok(IpAddress::V6(1, 2, 3, 4, 5, 6, 7, 0))
    );
    assert!(parse_ip("1:2:3:4:5:6:7:8:9").is_err());
    assert!(parse_ip("1::2::3").is_err());
    assert!(parse_ip("12345::").is_err());
    assert!(parse_ip("fe80::1::").is_err());
    assert!(parse_ip("").is_err());
    assert!(parse_ip("blah").is_err());
}

#[test]
fn ipv6_embedded_ipv4() {
    assert_eq!(
        parse_ip("::ffff:192.168.0.1"),
        Ok(IpAddress::V6(0, 0, 0, 0, 0, 0xffff, 0xc0a8, 0x0001))
    );
    assert_eq!(
        parse_ip("1:2:3:4:5:6:7.8.9.10"),
        Ok(IpAddress::V6(1, 2, 3, 4, 5, 6, 0x0708, 0x090a))
    );
    assert!(parse_ip("::ffff:192.168.0.256").is_err());
    assert!(parse_ip("1.2.3.4::").is_err());
}

#[test]
fn ip_text_reads_back() {
    let addrs = [
        IpAddress::V4(0, 0, 0, 0),
        IpAddress::V4(127, 0, 0, 1),
        IpAddress::V4(255, 255, 255, 255),
        IpAddress::V6(0, 0, 0, 0, 0, 0, 0, 0),
        IpAddress::V6(0xfe80, 0, 0, 0, 0, 0, 0, 1),
        IpAddress::V6(0x2001, 0xdb8, 0, 0, 0, 0xff00, 0x42, 0x8329),
    ];
    for a in addrs {
        assert_eq!(yinetd::addr::parse_ip(&yinetd::addr::ip_text(&a)), Ok(a));
    }
    assert_eq!(yinetd::addr::ip_text(&IpAddress::V4(10, 0, 0, 1)), "10.0.0.1");
    assert_eq!(
        yinetd::addr::ip_text(&IpAddress::V6(0xfe80, 0, 0, 0, 0, 0, 0, 1)),
        "fe80:0:0:0:0:0:0:1"
    );
}

#[test]
fn families() {
    assert!(parse_ip("127.0.0.1").unwrap().is_ipv4());
    assert!(!parse_ip("127.0.0.1").unwrap().is_ipv6());
    assert!(parse_ip("::1").unwrap().is_ipv6());
    assert!(!parse_ip("::1").unwrap().is_ipv4());
}
