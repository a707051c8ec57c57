use dns_filter::net::{parse_socket_addr, SocketAddress};

fn parse(s: &str) -> Option<SocketAddress> {
    let cs: Vec<char> = s.chars().collect();
    parse_socket_addr(&cs)
}

#[test]
fn socket_addresses_print_as_std_does() {
    let cases = [
        ("1.2.3.4:80", "1.2.3.4:80"),
        ("[::1]:53", "[::1]:53"),
        ("[::]:0", "[::]:0"),
        ("[2001:db8::1]:853", "[2001:db8::1]:853"),
        ("[2001:db8:0:0:1:0:0:1]:1", "[2001:db8::1:0:0:1]:1"),
        ("[1:0:0:2:0:0:0:3]:9", "[1:0:0:2::3]:9"),
        ("[::ffff:192.168.1.1]:53", "[::ffff:192.168.1.1]:53"),
        ("[fe80::1%3]:5353", "[fe80::1%3]:5353"),
        ("[1:2:3:4:5:6:7:8]:65535", "[1:2:3:4:5:6:7:8]:65535"),
        ("[0:0:1::]:1", "[0:0:1::]:1"),
        ("[1:0:2:3:4:5:6:7]:1", "[1:0:2:3:4:5:6:7]:1"),
        ("[ABCD::Ef]:2", "[abcd::ef]:2"),
    ];
    for (text, printed) in cases {
        let parsed = parse(text).unwrap_or_else(|| panic!("{} should parse", text));
        assert_eq!(parsed.to_string(), printed);
    }
}

#[test]
fn socket_address_parse_accepts_what_std_accepts() {
    let cases: [(&str, Option<&str>); 18] = [
        ("1.1.1.1:53", Some("1.1.1.1:53")),
        ("1.1.1.1", None),
        ("01.1.1.1:53", None),
        ("256.1.1.1:53", None),
        ("1.1.1.1:65536", None),
        ("[::1]:53", Some("[::1]:53")),
        ("::1:53", None),
        ("[::1]", None),
        ("[1::2::3]:53", None),
        ("[::ffff:1.2.3.4]:8", Some("[::ffff:1.2.3.4]:8")),
        ("[1:2:3:4:5:6:7:8:9]:1", None),
        ("[fe80::1%eth0]:53", None),
        ("[fe80::1%7]:53", Some("[fe80::1%7]:53")),
        ("", None),
        ("not-an-address:abc", None),
        ("[1:2:3:4:5:6:1.2.3.4]:2", Some("[1:2:3:4:5:6:102:304]:2")),
        ("[::1.2.3.4]:2", Some("[::102:304]:2")),
        ("[abcde::1]:2", None),
    ];
    for (text, expected) in cases {
        let ours = parse(text).map(|a| a.to_string());
        assert_eq!(ours.as_deref(), expected, "for {:?}", text);
    }
}

#[test]
fn socket_address_fields() {
    let a = parse("[fe80::1%3]:5353").unwrap();
    assert_eq!(a, SocketAddress::V6 { segments: vec![0xfe80, 0, 0, 0, 0, 0, 0, 1], port: 5353, scope_id: 3 });
    assert!(a.is_ipv6());
    assert_eq!(a.port(), 5353);
    let b = parse("10.0.0.1:8080").unwrap();
    assert_eq!(b, SocketAddress::V4 { octets: vec![10, 0, 0, 1], port: 8080 });
    assert!(!b.is_ipv6());
}
