use raigeki::admission::{protection_mode, Admission, Answers, AsnLookup, Blocklists, CacheStatus, CountryLookup};
use raigeki::addr::IpAddress;
use raigeki::detector::{AggregatedMetrics, ConnectionMetrics, DDoSDetector, FULL_SUCCESS_RATE};
use raigeki::error::Error;
use raigeki::stats::{exceeds_band, falls_below_band, median_of};

fn snap(total_conns: u64, incoming_attempts: u64, request_total: u64) -> ConnectionMetrics {
    ConnectionMetrics { total_conns, incoming_attempts, request_total }
}

#[test]
fn first_sample_takes_raw_values() {
    let mut d = DDoSDetector::new(50, 30, 50);
    d.add_metrics(snap(5, 10, 40));
    assert_eq!(
        d.latest(),
        Some(AggregatedMetrics { total_conns: 5, incoming_attempts: 10, success_rate: 5000, request_total: 40 })
    );
}

#[test]
fn later_samples_take_deltas() {
    let mut d = DDoSDetector::new(50, 30, 50);
    d.add_metrics(snap(5, 10, 40));
    d.add_metrics(snap(8, 14, 100));
    assert_eq!(
        d.latest(),
        Some(AggregatedMetrics { total_conns: 3, incoming_attempts: 4, success_rate: 7500, request_total: 60 })
    );
}

#[test]
fn deltas_never_negative() {
    let mut d = DDoSDetector::new(50, 30, 50);
    let mut c = 0u64;
    for step in [0u64, 3, 0, 100, 7, 1] {
        c += step;
        d.add_metrics(snap(c, c, c));
        let s = d.latest().unwrap();
        assert_eq!(s.incoming_attempts, step);
        assert_eq!(s.request_total, step);
    }
    d.add_metrics(snap(0, 0, 0));
    let s = d.latest().unwrap();
    assert_eq!((s.total_conns, s.incoming_attempts, s.request_total), (0, 0, 0));
    assert_eq!(s.success_rate, FULL_SUCCESS_RATE);
}

#[test]
fn large_deltas_are_exact() {
    let mut d = DDoSDetector::new(50, 30, 50);
    d.add_metrics(snap(0, 0, 0));
    d.add_metrics(snap(0, 1 << 40, 0));
    assert_eq!(d.latest().unwrap().incoming_attempts, 1 << 40);
    let mut first = DDoSDetector::new(50, 30, 50);
    first.add_metrics(snap(u64::MAX, 1, 1 << 40));
    let s = first.latest().unwrap();
    assert_eq!(s.total_conns, u64::MAX);
    assert_eq!(s.request_total, 1 << 40);
    assert_eq!(s.success_rate, u64::MAX as u128 * 10_000);
}

#[test]
fn huge_values_get_a_verdict() {
    // Steady traffic far above 32-bit counts is no attack.
    let mut d = DDoSDetector::new(50, 30, 50);
    d.add_metrics(snap(1 << 40, 1 << 40, 1 << 40));
    d.add_metrics(snap(2 << 40, 2 << 40, 2 << 40));
    assert_eq!(d.analyze(), Ok(false));
    // A success rate above 2^32 hundredths of a percent, twice.
    let mut r = DDoSDetector::new(50, 30, 50);
    r.add_metrics(snap(1 << 32, 1, 0));
    r.add_metrics(snap(2 << 32, 2, 0));
    assert_eq!(r.analyze(), Ok(false));
    // A jump of attempts at that scale is still an anomaly.
    let mut a = DDoSDetector::new(50, 30, 50);
    let mut c = snap(0, 0, 0);
    for _ in 0..10 {
        c.incoming_attempts += 1 << 40;
        c.request_total += 1 << 40;
        c.total_conns += 1 << 40;
        a.add_metrics(c);
    }
    c.incoming_attempts += 10 << 40;
    c.request_total += 1 << 40;
    c.total_conns += 10 << 40;
    a.add_metrics(c);
    assert_eq!(a.analyze(), Ok(true));
    let mut flood = DDoSDetector::new(50, 30, 50);
    flood.add_metrics(snap(1, 1 << 40, 1));
    flood.add_metrics(snap(2, 2 << 40, 2));
    flood.add_metrics(snap(3, 3 << 40, 1 << 40));
    assert_eq!(flood.analyze(), Ok(true));
}

#[test]
fn success_rate_formula() {
    assert_eq!(DDoSDetector::calculate_success_rate(0, 0), 10_000);
    assert_eq!(DDoSDetector::calculate_success_rate(1, 3), 3333);
    assert_eq!(DDoSDetector::calculate_success_rate(3, 3), 10_000);
    assert_eq!(DDoSDetector::calculate_success_rate(6, 3), 20_000);
    assert_eq!(DDoSDetector::calculate_success_rate(u64::MAX, 1), 184_467_440_737_095_516_150_000);
}

#[test]
fn history_stays_within_bound() {
    let mut d = DDoSDetector::new(3, 30, 50);
    for i in 0..10u64 {
        d.add_metrics(snap(i, i * 10, i * 100));
        assert!(d.len() <= 3);
    }
    assert_eq!(d.len(), 3);
    let mut one = DDoSDetector::new(1, 30, 50);
    one.add_metrics(snap(1, 1, 1));
    one.add_metrics(snap(2, 2, 2));
    assert_eq!(one.len(), 1);
}

#[test]
fn too_little_history_is_no_attack() {
    let mut d = DDoSDetector::new(50, 30, 50);
    assert!(!d.analyze().unwrap());
    d.add_metrics(snap(0, 0, 1_000_000));
    assert!(!d.analyze().unwrap());
}

fn baseline() -> (DDoSDetector, ConnectionMetrics) {
    let mut d = DDoSDetector::new(50, 30, 50);
    let mut c = snap(0, 0, 0);
    for i in 0..10u64 {
        c.total_conns += 90 + i % 3;
        c.incoming_attempts += 99 + i % 3;
        c.request_total += 990 + 10 * (i % 3);
        d.add_metrics(c);
    }
    (d, c)
}

#[test]
fn steady_traffic_is_no_attack() {
    let (d, _) = baseline();
    assert!(!d.analyze().unwrap());
}

#[test]
fn detector_trips_on_request_flood() {
    let (mut d, mut c) = baseline();
    c.total_conns += 90;
    c.incoming_attempts += 100;
    c.request_total += 20000;
    d.add_metrics(c);
    let attack = d.analyze().unwrap();
    assert!(attack);
    let mode = protection_mode(attack);
    assert_eq!(mode, 1);
    let ip = IpAddress::V4([10, 0, 0, 7]);
    let lists = Blocklists::new(vec![], vec!["CN".to_string()]);
    let a = Answers {
        cache: Some(CacheStatus::Absent),
        asn: Some(AsnLookup::Found(Some(65000))),
        country: Some(CountryLookup::Found(Some("CN".to_string()))),
    };
    assert_eq!(lists.next_step(ip, mode, &a), Admission::Reject { error: Error::CountryBlocked(ip), block: true });
}

#[test]
fn detector_trips_on_attempt_anomaly() {
    let (mut d, mut c) = baseline();
    c.total_conns += 90;
    c.incoming_attempts += 400;
    c.request_total += 1000;
    d.add_metrics(c);
    assert!(d.analyze().unwrap());
}

#[test]
fn detector_trips_on_success_collapse() {
    let (mut d, mut c) = baseline();
    c.total_conns += 5;
    c.incoming_attempts += 100;
    c.request_total += 1000;
    d.add_metrics(c);
    assert!(d.analyze().unwrap());
}

#[test]
fn current_sample_is_part_of_its_own_statistics() {
    // Attempts 100 then 1000: with the newest sample included the mean is
    // 550 and the deviation 450, so 1000 is not beyond three deviations.
    // Measured against the older sample alone it would be.
    let mut d = DDoSDetector::new(50, 30, 50);
    d.add_metrics(snap(0, 100, 0));
    d.add_metrics(snap(0, 1100, 0));
    assert!(!d.analyze().unwrap());
}

#[test]
fn combined_moderate_signs() {
    // Attempts doubled and requests tripled against a flat history: both
    // moderate signs hold, while the deviation tests (factor 25.0) and the
    // flood test (factor 50.0) stay quiet.
    let mut d = DDoSDetector::new(50, 250, 500);
    let mut c = snap(0, 0, 0);
    for _ in 0..5 {
        c.total_conns += 100;
        c.incoming_attempts += 100;
        c.request_total += 100;
        d.add_metrics(c);
    }
    assert!(!d.analyze().unwrap());
    c.total_conns += 200;
    c.incoming_attempts += 200;
    c.request_total += 300;
    d.add_metrics(c);
    assert!(d.analyze().unwrap());
}

#[test]
fn median_is_upper_middle_value() {
    assert_eq!(median_of(&vec![5]), 5);
    assert_eq!(median_of(&vec![3, 1, 2]), 2);
    assert_eq!(median_of(&vec![4, 1, 3, 2]), 3);
    assert_eq!(median_of(&vec![7, 7, 1, 7]), 7);
    assert_eq!(median_of(&vec![9, 1, 1, 1, 9]), 1);
}

#[test]
fn deviation_needs_two_samples() {
    assert_eq!(exceeds_band(&vec![], 5, 30), Err(Error::InsufficientData));
    assert_eq!(exceeds_band(&vec![5], 5, 30), Err(Error::InsufficientData));
    assert_eq!(falls_below_band(&vec![5], 5, 30), Err(Error::InsufficientData));
    // Mean 150, deviation 50: 301 is beyond three deviations, 300 is not.
    assert_eq!(exceeds_band(&vec![100, 200], 301, 30), Ok(true));
    assert_eq!(exceeds_band(&vec![100, 200], 300, 30), Ok(false));
    assert_eq!(falls_below_band(&vec![100, 200], 0, 30), Ok(false));
    assert_eq!(falls_below_band(&vec![100, 200], 0, 20), Ok(true));
    // No spread: any value above the mean is an anomaly.
    assert_eq!(exceeds_band(&vec![7, 7, 7], 8, 30), Ok(true));
    assert_eq!(exceeds_band(&vec![7, 7, 7], 7, 30), Ok(false));
    // Large values are decided exactly: mean 2^79 + 2^78, deviation 2^78.
    let big: u128 = 1 << 78;
    assert_eq!(exceeds_band(&vec![2 * big, 4 * big], 3 * big + 3 * big + 1, 30), Ok(true));
    assert_eq!(exceeds_band(&vec![2 * big, 4 * big], 6 * big, 30), Ok(false));
}
