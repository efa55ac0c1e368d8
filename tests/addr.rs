use raigeki::addr::{haproxy_header, Endpoint, IpAddress};

fn v6(s: [u16; 8]) -> IpAddress {
    IpAddress::V6(s)
}

#[test]
fn ipv4_text_is_dotted_decimal() {
    assert_eq!(IpAddress::V4([192, 0, 2, 7]).to_string(), "192.0.2.7");
    assert_eq!(IpAddress::V4([0, 0, 0, 0]).to_string(), "0.0.0.0");
    assert_eq!(IpAddress::V4([255, 255, 255, 255]).to_string(), "255.255.255.255");
    assert_eq!(IpAddress::V4([10, 0, 0, 1]).text_bytes(), b"10.0.0.1".to_vec());
}

#[test]
fn ipv6_text_compresses_longest_zero_run() {
    let cases: [([u16; 8], &str); 15] = [
        ([0, 0, 0, 0, 0, 0, 0, 0], "::"),
        ([0, 0, 0, 0, 0, 0, 0, 1], "::1"),
        ([1, 0, 0, 0, 0, 0, 0, 0], "1::"),
        ([0x2001, 0xdb8, 0, 0, 0, 0, 0, 1], "2001:db8::1"),
        ([0x2001, 0xdb8, 0, 0, 1, 0, 0, 1], "2001:db8::1:0:0:1"),
        ([1, 0, 0, 1, 0, 0, 1, 1], "1::1:0:0:1:1"),
        ([1, 0, 2, 3, 4, 5, 6, 7], "1:0:2:3:4:5:6:7"),
        ([0xfe80, 0, 0, 0, 1, 2, 3, 4], "fe80::1:2:3:4"),
        ([0, 0, 0, 0, 0, 0xffff, 0xc000, 0x0207], "::ffff:192.0.2.7"),
        ([0, 0, 0, 0, 0, 0xffff, 0, 0], "::ffff:0.0.0.0"),
        ([0, 0, 0, 0, 0, 0xffff, 0xffff, 0xffff], "::ffff:255.255.255.255"),
        ([1, 2, 3, 4, 5, 6, 7, 8], "1:2:3:4:5:6:7:8"),
        ([0xabcd, 0xef01, 0x2345, 0x6789, 0xabcd, 0xef01, 0x2345, 0x6789], "abcd:ef01:2345:6789:abcd:ef01:2345:6789"),
        ([0, 1, 0, 1, 0, 1, 0, 1], "0:1:0:1:0:1:0:1"),
        ([0, 0, 0, 0, 0, 0, 0x102, 0x304], "::102:304"),
    ];
    for (segments, text) in cases {
        assert_eq!(v6(segments).to_string(), text);
    }
}

#[test]
fn proxy_header_for_ipv4_pair() {
    let src = Endpoint { ip: IpAddress::V4([192, 0, 2, 7]), port: 54321 };
    let dst = Endpoint { ip: IpAddress::V4([198, 51, 100, 1]), port: 25565 };
    assert_eq!(
        haproxy_header(&src, &dst),
        b"PROXY TCP4 192.0.2.7 198.51.100.1 54321 25565\r\n".to_vec()
    );
}

#[test]
fn proxy_header_for_ipv6_and_mixed_pairs() {
    let src = Endpoint { ip: v6([0x2001, 0xdb8, 0, 0, 0, 0, 0, 7]), port: 1 };
    let dst = Endpoint { ip: v6([0x2001, 0xdb8, 0, 0, 0, 0, 0, 1]), port: 25565 };
    assert_eq!(haproxy_header(&src, &dst), b"PROXY TCP6 2001:db8::7 2001:db8::1 1 25565\r\n".to_vec());
    let src = Endpoint { ip: IpAddress::V4([192, 0, 2, 7]), port: 0 };
    assert_eq!(haproxy_header(&src, &dst), b"PROXY TCP6 192.0.2.7 2001:db8::1 0 25565\r\n".to_vec());
}
