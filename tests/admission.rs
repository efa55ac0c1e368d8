use raigeki::addr::IpAddress;
use raigeki::admission::{
    allow_entry, block_entry, protection_mode, Admission, Answers, AsnLookup, Blocklists, CacheRead, CacheStatus,
    CountryLookup, BLOCK_TTL_SECS, CACHE_BLOCKED,
};
use raigeki::error::Error;

fn lists() -> Blocklists {
    Blocklists::new(vec![13335, 9009], vec!["CN".to_string(), "KP".to_string()])
}

fn answers(cache: Option<CacheStatus>, asn: Option<AsnLookup>, country: Option<CountryLookup>) -> Answers {
    Answers { cache, asn, country }
}

#[test]
fn cache_reads_fail_open() {
    assert_eq!(CacheStatus::from_read(CacheRead::Value(1)), Ok(CacheStatus::Blocked));
    assert_eq!(CacheStatus::from_read(CacheRead::Value(2)), Ok(CacheStatus::AllowListed));
    assert_eq!(CacheStatus::from_read(CacheRead::Value(0)), Ok(CacheStatus::Absent));
    assert_eq!(CacheStatus::from_read(CacheRead::Value(7)), Ok(CacheStatus::Absent));
    assert_eq!(CacheStatus::from_read(CacheRead::Missing), Ok(CacheStatus::Absent));
    assert_eq!(CacheStatus::from_read(CacheRead::Failed), Err(Error::CacheError));
    assert_eq!(CacheStatus::for_admission(CacheRead::Failed), CacheStatus::Absent);
    assert_eq!(CacheStatus::for_admission(CacheRead::Value(1)), CacheStatus::Blocked);
}

#[test]
fn happy_path_admits() {
    let ip = IpAddress::V4([10, 0, 0, 1]);
    let l = lists();
    assert_eq!(l.next_step(ip, 0, &answers(None, None, None)), Admission::LookupCache);
    let a = answers(Some(CacheStatus::Absent), None, None);
    assert_eq!(l.next_step(ip, 0, &a), Admission::LookupAsn);
    let a = answers(Some(CacheStatus::Absent), Some(AsnLookup::Found(Some(65000))), None);
    assert_eq!(l.next_step(ip, 0, &a), Admission::Admit);
    assert_eq!(l.next_step(ip, 1, &a), Admission::LookupCountry);
    let a = answers(
        Some(CacheStatus::Absent),
        Some(AsnLookup::Found(Some(65000))),
        Some(CountryLookup::Found(Some("US".to_string()))),
    );
    assert_eq!(l.next_step(ip, 1, &a), Admission::Admit);
}

#[test]
fn cache_blocked_rejects_without_lookups() {
    let ip = IpAddress::V4([10, 0, 0, 2]);
    let l = lists();
    for mode in [0, 1] {
        let a = answers(Some(CacheStatus::Blocked), None, None);
        assert_eq!(
            l.next_step(ip, mode, &a),
            Admission::Reject { error: Error::IpBlockedInCache(ip), block: false }
        );
        let a = answers(Some(CacheStatus::Blocked), Some(AsnLookup::Found(Some(1))), None);
        assert_eq!(
            l.next_step(ip, mode, &a),
            Admission::Reject { error: Error::IpBlockedInCache(ip), block: false }
        );
    }
}

#[test]
fn allow_listed_skips_checks() {
    let ip = IpAddress::V4([10, 0, 0, 9]);
    let a = answers(Some(CacheStatus::AllowListed), Some(AsnLookup::Found(Some(13335))), None);
    assert_eq!(lists().next_step(ip, 1, &a), Admission::Admit);
}

#[test]
fn asn_blocked_rejects_and_blocks() {
    let ip = IpAddress::V4([10, 0, 0, 3]);
    let a = answers(Some(CacheStatus::Absent), Some(AsnLookup::Found(Some(13335))), None);
    for mode in [0, 1] {
        assert_eq!(
            lists().next_step(ip, mode, &a),
            Admission::Reject { error: Error::AsnBlocked(ip), block: true }
        );
    }
    let w = block_entry(&ip);
    assert_eq!((w.key.as_str(), w.value, w.ttl_secs), ("10.0.0.3", CACHE_BLOCKED, 3600));
    assert!(BLOCK_TTL_SECS >= 3600);
}

#[test]
fn asn_lookup_fails_closed() {
    let ip = IpAddress::V4([10, 0, 0, 4]);
    let l = lists();
    assert!(l.in_asn_blacklist(&AsnLookup::Failed));
    assert!(!l.in_asn_blacklist(&AsnLookup::Found(None)));
    assert!(l.in_asn_blacklist(&AsnLookup::Found(Some(9009))));
    let with_zero = Blocklists::new(vec![0], vec![]);
    assert!(with_zero.in_asn_blacklist(&AsnLookup::Found(None)));
    let a = answers(Some(CacheStatus::Absent), Some(AsnLookup::Failed), None);
    assert_eq!(l.next_step(ip, 0, &a), Admission::Reject { error: Error::AsnBlocked(ip), block: true });
}

#[test]
fn country_checks_only_in_protection_mode() {
    let ip = IpAddress::V4([10, 0, 0, 5]);
    let l = lists();
    let cn = Some(CountryLookup::Found(Some("CN".to_string())));
    let a = answers(Some(CacheStatus::Absent), Some(AsnLookup::Found(Some(65000))), cn);
    assert_eq!(l.next_step(ip, 0, &a), Admission::Admit);
    assert_eq!(l.next_step(ip, 2, &a), Admission::Admit);
    assert_eq!(
        l.next_step(ip, 1, &a),
        Admission::Reject { error: Error::CountryBlocked(ip), block: true }
    );
    let a = answers(Some(CacheStatus::Absent), Some(AsnLookup::Found(Some(65000))), None);
    assert_eq!(l.next_step(ip, 0, &a), Admission::Admit);
    assert_eq!(l.next_step(ip, 1, &a), Admission::LookupCountry);
}

#[test]
fn country_lookup_fails_closed() {
    let l = lists();
    assert!(l.in_country_blacklist(&CountryLookup::Failed));
    assert!(l.in_country_blacklist(&CountryLookup::NoCountry));
    assert!(!l.in_country_blacklist(&CountryLookup::Found(None)));
    assert!(!l.in_country_blacklist(&CountryLookup::Found(Some("US".to_string()))));
    assert!(l.in_country_blacklist(&CountryLookup::Found(Some("KP".to_string()))));
}

#[test]
fn verdict_sets_protection_mode() {
    assert_eq!(protection_mode(true), 1);
    assert_eq!(protection_mode(false), 0);
}

#[test]
fn allow_entry_marks_address() {
    let w = allow_entry(&IpAddress::V6([0x2001, 0xdb8, 0, 0, 0, 0, 0, 1]), 600);
    assert_eq!((w.key.as_str(), w.value, w.ttl_secs), ("2001:db8::1", 2, 600));
}
