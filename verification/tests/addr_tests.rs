use cloudflare_ddns::addr::{format_ipv4, format_ipv6, parse_ipv4, parse_ipv6, Ipv4Address, Ipv6Address};
use cloudflare_ddns::text::{dec_string, hex_string};

fn v6(groups: [u16; 8]) -> Ipv6Address {
    Ipv6Address { groups: groups.to_vec() }
}

#[test]
fn dec_string_renders_decimal() {
    assert_eq!(dec_string(0), "0");
    assert_eq!(dec_string(7), "7");
    assert_eq!(dec_string(255), "255");
    assert_eq!(dec_string(65535), "65535");
}

#[test]
fn hex_string_renders_lowercase_hex() {
    assert_eq!(hex_string(0), "0");
    assert_eq!(hex_string(0x1a), "1a");
    assert_eq!(hex_string(0xffff), "ffff");
    assert_eq!(hex_string(0x0db8), "db8");
}

#[test]
fn parse_ipv4_accepts_dotted_decimal() {
    assert_eq!(parse_ipv4(b"10.0.0.2"), Some(Ipv4Address { o0: 10, o1: 0, o2: 0, o3: 2 }));
    assert_eq!(parse_ipv4(b"0.0.0.0"), Some(Ipv4Address { o0: 0, o1: 0, o2: 0, o3: 0 }));
    assert_eq!(
        parse_ipv4(b"255.255.255.255"),
        Some(Ipv4Address { o0: 255, o1: 255, o2: 255, o3: 255 })
    );
}

#[test]
fn parse_ipv4_rejects_malformed_texts() {
    assert_eq!(parse_ipv4(b""), None);
    assert_eq!(parse_ipv4(b"1.2.3"), None);
    assert_eq!(parse_ipv4(b"1.2.3.4.5"), None);
    assert_eq!(parse_ipv4(b"01.2.3.4"), None);
    assert_eq!(parse_ipv4(b"256.1.1.1"), None);
    assert_eq!(parse_ipv4(b"1..2.3"), None);
    assert_eq!(parse_ipv4(b"not-an-ip"), None);
    assert_eq!(parse_ipv4(b"1.2.3.4 "), None);
    assert_eq!(parse_ipv4(b"1.2.3.d"), None);
}

#[test]
fn format_ipv4_renders_dotted_decimal() {
    assert_eq!(format_ipv4(&Ipv4Address { o0: 192, o1: 168, o2: 0, o3: 1 }), "192.168.0.1");
    assert_eq!(format_ipv4(&Ipv4Address { o0: 1, o1: 1, o2: 1, o3: 1 }), "1.1.1.1");
}

#[test]
fn ipv4_round_trip() {
    for text in ["10.0.0.2", "255.0.255.3", "0.0.0.0"] {
        let a = parse_ipv4(text.as_bytes()).unwrap();
        assert_eq!(format_ipv4(&a), text);
    }
}

#[test]
fn parse_ipv6_accepts_group_forms() {
    assert_eq!(
        parse_ipv6(b"2606:4700:4700::1111").unwrap().groups,
        vec![0x2606, 0x4700, 0x4700, 0, 0, 0, 0, 0x1111]
    );
    assert_eq!(parse_ipv6(b"::1").unwrap().groups, vec![0, 0, 0, 0, 0, 0, 0, 1]);
    assert_eq!(parse_ipv6(b"::").unwrap().groups, vec![0; 8]);
    assert_eq!(parse_ipv6(b"1::").unwrap().groups, vec![1, 0, 0, 0, 0, 0, 0, 0]);
    assert_eq!(
        parse_ipv6(b"1:2:3:4:5:6:7:8").unwrap().groups,
        vec![1, 2, 3, 4, 5, 6, 7, 8]
    );
    assert_eq!(
        parse_ipv6(b"0:0:0:0:0:0:0:0").unwrap().groups,
        vec![0; 8]
    );
    assert_eq!(
        parse_ipv6(b"fe80::dead:BEEF").unwrap().groups,
        vec![0xfe80, 0, 0, 0, 0, 0, 0xdead, 0xbeef]
    );
}

#[test]
fn parse_ipv6_accepts_embedded_dotted_quads() {
    assert_eq!(
        parse_ipv6(b"::ffff:10.0.0.2").unwrap().groups,
        vec![0, 0, 0, 0, 0, 0xffff, 0x0a00, 0x0002]
    );
    assert_eq!(
        parse_ipv6(b"::1.2.3.4").unwrap().groups,
        vec![0, 0, 0, 0, 0, 0, 0x0102, 0x0304]
    );
    assert_eq!(
        parse_ipv6(b"1:2:3:4:5:6:1.2.3.4").unwrap().groups,
        vec![1, 2, 3, 4, 5, 6, 0x0102, 0x0304]
    );
    assert_eq!(
        parse_ipv6(b"64:ff9b::255.255.255.255").unwrap().groups,
        vec![0x64, 0xff9b, 0, 0, 0, 0, 0xffff, 0xffff]
    );
    // The dotted quad stands only at the end, and must be a whole one.
    assert!(parse_ipv6(b"1.2.3.4").is_none());
    assert!(parse_ipv6(b"1.2.3.4::").is_none());
    assert!(parse_ipv6(b"::1.2.3").is_none());
    assert!(parse_ipv6(b"::ffff:1.2.3.4.5").is_none());
    assert!(parse_ipv6(b"::1.2.3.4:5").is_none());
    assert!(parse_ipv6(b"1:2:3:4:5:6:7:1.2.3.4").is_none());
}

#[test]
fn parse_ipv6_rejects_malformed_texts() {
    assert!(parse_ipv6(b"").is_none());
    assert!(parse_ipv6(b"1:2:3").is_none());
    assert!(parse_ipv6(b"1::2::3").is_none());
    assert!(parse_ipv6(b":::").is_none());
    assert!(parse_ipv6(b"12345::").is_none());
    assert!(parse_ipv6(b":1:2:3:4:5:6:7").is_none());
    assert!(parse_ipv6(b"1:2:3:4:5:6:7:").is_none());
    assert!(parse_ipv6(b"1:2:3:4:5:6:7::8").is_none());
    assert!(parse_ipv6(b"1:2:3:4:5:6:7:8:9").is_none());
    assert!(parse_ipv6(b"fe80::1%eth0").is_none());
    assert!(parse_ipv6(b"g::1").is_none());
}

#[test]
fn format_ipv6_compresses_leftmost_longest_zero_run() {
    assert_eq!(
        format_ipv6(&v6([0x2606, 0x4700, 0x4700, 0, 0, 0, 0, 0x1111])),
        "2606:4700:4700::1111"
    );
    assert_eq!(format_ipv6(&v6([0, 0, 0, 0, 0, 0, 0, 0])), "::");
    assert_eq!(format_ipv6(&v6([0, 0, 0, 0, 0, 0, 0, 1])), "::1");
    assert_eq!(format_ipv6(&v6([1, 0, 2, 3, 4, 5, 6, 7])), "1:0:2:3:4:5:6:7");
    assert_eq!(format_ipv6(&v6([1, 0, 0, 2, 0, 0, 3, 4])), "1::2:0:0:3:4");
    assert_eq!(format_ipv6(&v6([1, 0, 0, 2, 0, 0, 0, 3])), "1:0:0:2::3");
    assert_eq!(format_ipv6(&v6([0xfe80, 0, 0, 0, 0, 0, 0xdead, 0xbeef])), "fe80::dead:beef");
}

#[test]
fn ipv6_round_trip() {
    for text in ["2606:4700:4700::1111", "::", "::1", "1:0:2:3:4:5:6:7", "fe80::dead:beef"] {
        let a = parse_ipv6(text.as_bytes()).unwrap();
        assert_eq!(format_ipv6(&a), text);
    }
}
