use minidocker::ipv4::{ipv4, ipv4_network_new, ipv4_to_text, parse_ipv4, random_in_range, subnet_broadcast, subnet_network, Subnet};

#[test]
fn octets_make_the_address() {
    assert_eq!(ipv4(10, 2, 0, 1), 0x0a02_0001);
    assert_eq!(ipv4(255, 255, 255, 255), u32::MAX);
}

#[test]
fn text_matches_std_display() {
    let cases = [
        (0u32, "0.0.0.0"),
        (0x0a02_0001, "10.2.0.1"),
        (0xc0a8_0164, "192.168.1.100"),
        (u32::MAX, "255.255.255.255"),
        (0x6400_0a09, "100.0.10.9"),
    ];
    for (ip, expected) in cases {
        assert_eq!(ipv4_to_text(ip), expected.as_bytes().to_vec());
    }
}

#[test]
fn parse_accepts_dotted_text() {
    assert_eq!(parse_ipv4(b"10.2.0.1"), Some(0x0a02_0001));
    assert_eq!(parse_ipv4(b"255.255.255.255"), Some(u32::MAX));
    assert_eq!(parse_ipv4(b"0.0.0.0"), Some(0));
}

#[test]
fn parse_refuses_what_std_refuses() {
    for text in ["", "1.2.3", "1.2.3.4.5", "01.2.3.4", "256.0.0.1", "1.2.3.4 ", " 1.2.3.4", "1..2.3", "1.2.3.a", "1234.1.1.1", "1.2.3.-4"] {
        assert_eq!(parse_ipv4(text.as_bytes()), None, "{}", text);
    }
}

#[test]
fn parse_reads_back_every_text() {
    for ip in [0u32, 1, 0x0a02_0001, 0x0a02_00ff, 0x7f00_0001, 0xffff_fffe] {
        assert_eq!(parse_ipv4(&ipv4_to_text(ip)), Some(ip));
    }
}

#[test]
fn network_new_checks_prefix() {
    assert_eq!(ipv4_network_new(0x0a02_0001, 24), Some(Subnet { addr: 0x0a02_0001, prefix: 24 }));
    assert_eq!(ipv4_network_new(0x0a02_0001, 32), Some(Subnet { addr: 0x0a02_0001, prefix: 32 }));
    assert_eq!(ipv4_network_new(0x0a02_0001, 33), None);
}

#[test]
fn network_and_broadcast_addresses() {
    let net = Subnet { addr: 0x0a02_0001, prefix: 24 };
    assert_eq!(subnet_network(&net), 0x0a02_0000);
    assert_eq!(subnet_broadcast(&net), 0x0a02_00ff);
    let whole = Subnet { addr: 0x0a02_0001, prefix: 0 };
    assert_eq!(subnet_network(&whole), 0);
    assert_eq!(subnet_broadcast(&whole), u32::MAX);
    let host = Subnet { addr: 0x0a02_0001, prefix: 32 };
    assert_eq!(subnet_network(&host), 0x0a02_0001);
    assert_eq!(subnet_broadcast(&host), 0x0a02_0001);
}

#[test]
fn random_draw_stays_in_range() {
    for _ in 0..100 {
        let r = random_in_range(10, 20);
        assert!((10..=20).contains(&r));
    }
    assert_eq!(random_in_range(7, 7), 7);
}
