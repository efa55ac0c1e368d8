use raigeki::addr::IpAddress;
use raigeki::ratelimit::{exceeds_rate_limit, relay_step, RateLimiter, RelayAction, RelayEvent};
use raigeki::search::find_subsequence;

#[test]
fn rate_limit_trips_on_sixth_request() {
    let limiter = RateLimiter::new(5);
    let ip = IpAddress::V4([10, 0, 0, 4]);
    for i in 1..=5 {
        assert_eq!(limiter.observe(&ip), (i, false));
    }
    assert_eq!(limiter.observe(&ip), (6, true));
    assert_eq!(relay_step(RelayEvent::RateObserved(true)), RelayAction::BlockClient);
    let other = IpAddress::V4([10, 0, 0, 5]);
    assert_eq!(limiter.observe(&other), (1, false));
}

#[test]
fn rate_limit_cap_is_exclusive() {
    assert!(!exceeds_rate_limit(5, 5));
    assert!(exceeds_rate_limit(6, 5));
    assert!(!exceeds_rate_limit(0, 0));
    assert!(exceeds_rate_limit(1, 0));
}

#[test]
fn relay_decisions() {
    assert_eq!(relay_step(RelayEvent::ClientRead(6)), RelayAction::ForwardToUpstream(6));
    assert_eq!(relay_step(RelayEvent::UpstreamRead(1024)), RelayAction::ForwardToClient(1024));
    assert_eq!(relay_step(RelayEvent::ClientRead(0)), RelayAction::Close);
    assert_eq!(relay_step(RelayEvent::UpstreamRead(0)), RelayAction::Close);
    assert_eq!(relay_step(RelayEvent::Shutdown), RelayAction::Close);
    assert_eq!(relay_step(RelayEvent::IoFailed), RelayAction::Fail);
    assert_eq!(relay_step(RelayEvent::RateObserved(false)), RelayAction::Continue);
    assert_eq!(relay_step(RelayEvent::RateObserved(true)), RelayAction::BlockClient);
}

#[test]
fn finds_first_occurrence() {
    assert_eq!(find_subsequence(b"hello world", b"o"), Some(4));
    assert_eq!(find_subsequence(b"hello world", b"world"), Some(6));
    assert_eq!(find_subsequence(b"PROXY TCP4 x\r\n", b"\r\n"), Some(12));
    assert_eq!(find_subsequence(b"abc", b"abcd"), None);
    assert_eq!(find_subsequence(b"abc", b"x"), None);
    assert_eq!(find_subsequence(b"", b"x"), None);
}

use raigeki::error::Error;
use raigeki::proxy_header::{parse_haproxy_header, parse_port, HAProxyInfo};

#[test]
fn proxy_line_fields() {
    let f = parse_haproxy_header(b"PROXY TCP4 192.0.2.7 198.51.100.1 54321 25565\r\n").unwrap();
    assert_eq!(f.src_addr, "192.0.2.7");
    assert_eq!(f.src_port, 54321);
    let f = parse_haproxy_header(b"  PROXY\tTCP6  2001:db8::7 2001:db8::1 1 25565").unwrap();
    assert_eq!(f.src_addr, "2001:db8::7");
    // Unicode whitespace separates words too, and other text passes through.
    let g = parse_haproxy_header("PROXY\u{3000}TCP4 é\u{a0}x 7 8 9".as_bytes()).unwrap();
    assert_eq!(g.src_addr, "é");
    assert_eq!(g.src_port, 7);
    assert_eq!(f.src_port, 1);
}

#[test]
fn proxy_line_rejections() {
    let bad: [&[u8]; 6] = [
        b"PROXY TCP4 192.0.2.7 198.51.100.1 54321",
        b"proxy TCP4 192.0.2.7 198.51.100.1 54321 25565",
        b"PROXY TCP4 192.0.2.7 198.51.100.1 65536 25565",
        b"PROXY TCP4 192.0.2.7 198.51.100.1 -1 25565",
        b"PROXY TCP4 192.0.2.7 198.51.100.1 12a 25565",
        b"PROXY TCP4 192.0.2.7 198.51.100.1 1 \xff",
    ];
    for line in bad {
        assert_eq!(parse_haproxy_header(line), Err(Error::InvalidHAProxyHeader));
    }
}

#[test]
fn port_text() {
    assert_eq!(parse_port(b"0"), Some(0));
    assert_eq!(parse_port(b"+80"), Some(80));
    assert_eq!(parse_port(b"065535"), Some(65535));
    assert_eq!(parse_port(b"65536"), None);
    assert_eq!(parse_port(b"99999999999999999999"), None);
    assert_eq!(parse_port(b"+"), None);
    assert_eq!(parse_port(b""), None);
    assert_eq!(parse_port(b"8 0"), None);
}

#[test]
fn proxy_info_holds_address_and_port() {
    let info = HAProxyInfo { src_addr: IpAddress::V4([192, 0, 2, 7]), src_port: 54321 };
    assert_eq!(info.src_addr.to_string(), "192.0.2.7");
    assert_eq!(info.src_port, 54321);
}
