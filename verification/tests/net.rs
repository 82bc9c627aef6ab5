use reflex::net::{IpAddr, Ipv4Addr, Ipv6Addr, SocketAddr};

#[test]
fn ipv4_text_and_back() {
    let a = Ipv4Addr::new(198, 18, 0, 1);
    assert_eq!(a.text(), "198.18.0.1");
    assert_eq!(Ipv4Addr::parse("198.18.0.1"), Some(a));
    assert_eq!(a.octets(), [198, 18, 0, 1]);
    assert_eq!(Ipv4Addr::read(&[9, 198, 18, 0, 1, 9], 1), a);
    for bad in [
        "", "1.2.3", "1.2.3.4.5", "1.2.3.256", "01.2.3.4", "1..3.4", "1.2.3.4 ", "+1.2.3.4",
        "1.2.3.0004", "a.b.c.d",
    ] {
        assert_eq!(Ipv4Addr::parse(bad), None);
    }
}

#[test]
fn ipv4_classes() {
    assert!(Ipv4Addr::new(255, 255, 255, 255).is_broadcast());
    assert!(Ipv4Addr::new(224, 0, 0, 0).is_multicast());
    assert!(Ipv4Addr::new(239, 255, 255, 255).is_multicast());
    assert!(!Ipv4Addr::new(240, 0, 0, 0).is_multicast());
    assert!(Ipv4Addr::new(0, 0, 0, 0).is_unspecified());
    assert_eq!(Ipv4Addr::new(1, 2, 3, 255).next().text(), "1.2.4.0");
}

#[test]
fn ipv6_text() {
    for (given, written) in [
        ("::", "::"),
        ("::1", "::1"),
        ("1::", "1::"),
        ("fd00::1", "fd00::1"),
        ("2001:DB8:0:0:1:0:0:1", "2001:db8::1:0:0:1"),
        ("1:0:2:3:4:5:6:7", "1:0:2:3:4:5:6:7"),
        ("1:0:0:2:0:0:0:3", "1:0:0:2::3"),
        ("1:2:3:4:5:6:7::", "1:2:3:4:5:6:7:0"),
        ("::ffff:1.2.3.4", "::ffff:1.2.3.4"),
        ("::1.2.3.4", "::102:304"),
        ("64:ff9b::8.8.8.8", "64:ff9b::808:808"),
        ("1:2:3:4:5:6:1.2.3.4", "1:2:3:4:5:6:102:304"),
        ("ffff:ffff:ffff:ffff:ffff:ffff:ffff:ffff", "ffff:ffff:ffff:ffff:ffff:ffff:ffff:ffff"),
    ] {
        let a = Ipv6Addr::parse(given).unwrap();
        assert_eq!(a.text(), written);
        assert_eq!(Ipv6Addr::parse(&a.text()), Some(a));
    }
}

#[test]
fn ipv6_text_that_is_none() {
    for bad in [
        "", ":", ":::", "1:2:3:4:5:6:7", "1:2:3:4:5:6:7:8:9", "1::2::3", "12345::", "g::", "1:",
        ":1", "1:2:3:4:5:6:7:8::", "1.2.3.4::", "::1.2.3.4:5", "1:2:3:4:5:6:7:1.2.3.4", "::1.2.3",
        "fd00::1%1", "[::1]",
    ] {
        assert_eq!(Ipv6Addr::parse(bad), None);
    }
}

#[test]
fn ipv6_octets() {
    let a = Ipv6Addr::parse("102:304:506:708:90a:b0c:d0e:f10").unwrap();
    assert_eq!(a.octets(), [1, 2, 3, 4, 5, 6, 7, 8, 9, 10, 11, 12, 13, 14, 15, 16]);
    assert_eq!(Ipv6Addr::read(&a.octets(), 0), a);
    assert!(Ipv6Addr::parse("ff02::1").unwrap().is_multicast());
    assert!(!Ipv6Addr::parse("fe80::1").unwrap().is_multicast());
    assert!(Ipv6Addr::parse("::").unwrap().is_unspecified());
    let last = Ipv6Addr::parse("ffff:ffff:ffff:ffff:ffff:ffff:ffff:ffff").unwrap();
    assert!(last.next().is_unspecified());
}

#[test]
fn either_family() {
    assert!(IpAddr::parse("1.2.3.4").unwrap().is_ipv4());
    assert!(IpAddr::parse("::1").unwrap().is_ipv6());
    assert_eq!(IpAddr::parse("host"), None);
    let ip = IpAddr::parse("fd00::1").unwrap();
    assert_eq!(ip.text_with_prefix(126), "fd00::1/126");
    assert_eq!(SocketAddr::new(ip, 443).port(), 443);
    assert_eq!(IpAddr::parse("1.2.3.4").unwrap().text(), "1.2.3.4");
}
