//! The admission decision for a new connection: block cache first, then the
//! ASN blocklist, then (only in protection mode) the country blocklist.
//!
//! The lookups themselves happen elsewhere. `next_step` says which answer is
//! needed next, or the verdict once the answers given settle it.
use vstd::prelude::*;

use crate::addr::{ip_text, IpAddress};
use crate::error::Error;
use crate::text::ascii_chars;

verus! {

/// Value the block cache stores for an address whose status is unknown.
pub const CACHE_UNKNOWN: i16 = 0;

/// Value the block cache stores for a blocked address.
pub const CACHE_BLOCKED: i16 = 1;

/// Value the block cache stores for an allow-listed address.
pub const CACHE_ALLOW_LISTED: i16 = 2;

/// Lifetime of a block written by the proxy, in seconds.
pub const BLOCK_TTL_SECS: u32 = 3600;

/// Status of an address in the block cache.
#[derive(Debug, Clone, Copy, PartialEq, Eq, Structural)]
pub enum CacheStatus {
    Absent,
    Blocked,
    AllowListed,
}

/// What a read of the block cache gave.
#[derive(Debug, Clone, Copy, PartialEq, Eq, Structural)]
pub enum CacheRead {
    /// The key holds this value.
    Value(i16),
    /// The key is not in the cache.
    Missing,
    /// The cache could not be reached or answered with an error.
    Failed,
}

/// The status a cache read reports: a missing key or an unknown value is
/// absent, a failed read is a `CacheError`.
pub open spec fn cache_get(read: CacheRead) -> Result<CacheStatus, Error> {
    match read {
        CacheRead::Value(v) => Ok(
            if v == CACHE_BLOCKED {
                CacheStatus::Blocked
            } else if v == CACHE_ALLOW_LISTED {
                CacheStatus::AllowListed
            } else {
                CacheStatus::Absent
            },
        ),
        CacheRead::Missing => Ok(CacheStatus::Absent),
        CacheRead::Failed => Err(Error::CacheError),
    }
}

/// The status admission works with: reads fail open, so a `CacheError`
/// counts as absent.
pub open spec fn admission_status(read: CacheRead) -> CacheStatus {
    match cache_get(read) {
        Ok(status) => status,
        Err(_) => CacheStatus::Absent,
    }
}

impl CacheStatus {
    /// The status a cache read reports.
    pub fn from_read(read: CacheRead) -> (r: Result<CacheStatus, Error>)
        ensures
            r == cache_get(read),
    {
        match read {
            CacheRead::Value(v) => {
                if v == CACHE_BLOCKED {
                    Ok(CacheStatus::Blocked)
                } else if v == CACHE_ALLOW_LISTED {
                    Ok(CacheStatus::AllowListed)
                } else {
                    Ok(CacheStatus::Absent)
                }
            },
            CacheRead::Missing => Ok(CacheStatus::Absent),
            CacheRead::Failed => Err(Error::CacheError),
        }
    }

    /// The status admission works with; a failed read counts as absent.
    pub fn for_admission(read: CacheRead) -> (r: CacheStatus)
        ensures
            r == admission_status(read),
    {
        match Self::from_read(read) {
            Ok(status) => status,
            Err(_) => CacheStatus::Absent,
        }
    }
}

/// A write to the block cache.
#[derive(Debug, Clone, PartialEq, Eq)]
pub struct CacheWrite {
    pub key: String,
    pub value: i16,
    pub ttl_secs: u32,
}

/// The cache write that allow-lists `ip` for `ttl_secs` seconds.
pub fn allow_entry(ip: &IpAddress, ttl_secs: u32) -> (r: CacheWrite)
    ensures
        r.key@ == ascii_chars(ip_text(*ip)),
        r.value == CACHE_ALLOW_LISTED,
        r.ttl_secs == ttl_secs,
{
    CacheWrite { key: ip.to_string(), value: CACHE_ALLOW_LISTED, ttl_secs }
}

/// The cache write that blocks `ip`: its text as key, the blocked value, and
/// the block lifetime.
pub fn block_entry(ip: &IpAddress) -> (r: CacheWrite)
    ensures
        r.key@ == ascii_chars(ip_text(*ip)),
        r.value == CACHE_BLOCKED,
        r.ttl_secs == BLOCK_TTL_SECS,
{
    CacheWrite { key: ip.to_string(), value: CACHE_BLOCKED, ttl_secs: BLOCK_TTL_SECS }
}

/// What the ASN database gave for an address.
#[derive(Debug, Clone, Copy, PartialEq, Eq, Structural)]
pub enum AsnLookup {
    /// The address resolved; the record may lack a number.
    Found(Option<u32>),
    /// The lookup failed or the address is not in the database.
    Failed,
}

/// What the country database gave for an address.
#[derive(Debug, Clone, PartialEq, Eq)]
pub enum CountryLookup {
    /// The address resolved to a country; its ISO code may be missing.
    Found(Option<String>),
    /// The address resolved, but the record names no country.
    NoCountry,
    /// The lookup failed or the address is not in the database.
    Failed,
}

/// Whether an ASN answer puts the address on the blocklist: a missing
/// number counts as 0, and a failed lookup as listed.
pub open spec fn asn_listed(asns: Seq<u32>, lookup: AsnLookup) -> bool {
    match lookup {
        AsnLookup::Found(n) => asns.contains(
            match n {
                Some(x) => x,
                None => 0,
            },
        ),
        AsnLookup::Failed => true,
    }
}

/// Whether a country answer puts the address on the blocklist: a missing
/// ISO code counts as the empty code, and a failed lookup or a record without
/// a country as listed.
pub open spec fn country_listed(countries: Seq<Seq<char>>, lookup: CountryLookup) -> bool {
    match lookup {
        CountryLookup::Found(code) => countries.contains(
            match code {
                Some(c) => c@,
                None => Seq::<char>::empty(),
            },
        ),
        _ => true,
    }
}

/// The configured ASN numbers and country codes to refuse.
#[derive(Debug, Clone)]
pub struct Blocklists {
    pub asn_blacklist: Vec<u32>,
    pub country_blacklist: Vec<String>,
}

impl Blocklists {
    /// The country codes, as text.
    pub open spec fn countries(&self) -> Seq<Seq<char>> {
        self.country_blacklist@.map_values(|c: String| c@)
    }

    pub fn new(asn_blacklist: Vec<u32>, country_blacklist: Vec<String>) -> (r: Self)
        ensures
            r.asn_blacklist@ == asn_blacklist@,
            r.country_blacklist@ == country_blacklist@,
    {
        Blocklists { asn_blacklist, country_blacklist }
    }

    /// Whether the ASN answer puts the address on the blocklist (fail-closed).
    pub fn in_asn_blacklist(&self, lookup: &AsnLookup) -> (r: bool)
        ensures
            r == asn_listed(self.asn_blacklist@, *lookup),
    {
        let asn: u32 = match lookup {
            AsnLookup::Found(Some(n)) => *n,
            AsnLookup::Found(None) => 0,
            AsnLookup::Failed => {
                return true;
            },
        };
        let mut i: usize = 0;
        while i < self.asn_blacklist.len()
            invariant
                i <= self.asn_blacklist@.len(),
                asn_listed(self.asn_blacklist@, *lookup) == self.asn_blacklist@.contains(asn),
                forall|j: int| 0 <= j < i ==> self.asn_blacklist@[j] != asn,
            decreases self.asn_blacklist@.len() - i,
        {
            if self.asn_blacklist[i] == asn {
                assert(self.asn_blacklist@[i as int] == asn);
                assert(self.asn_blacklist@.contains(asn));
                return true;
            }
            i = i + 1;
        }
        false
    }

    /// Whether the country answer puts the address on the blocklist
    /// (fail-closed).
    pub fn in_country_blacklist(&self, lookup: &CountryLookup) -> (r: bool)
        ensures
            r == country_listed(self.countries(), *lookup),
    {
        let empty = String::new();
        let code: &String = match lookup {
            CountryLookup::Found(Some(c)) => c,
            CountryLookup::Found(None) => &empty,
            _ => {
                return true;
            },
        };
        let mut i: usize = 0;
        while i < self.country_blacklist.len()
            invariant
                i <= self.country_blacklist@.len(),
                country_listed(self.countries(), *lookup) == self.countries().contains(code@),
                forall|j: int| 0 <= j < i ==> self.countries()[j] != code@,
            decreases self.country_blacklist@.len() - i,
        {
            if self.country_blacklist[i] == *code {
                assert(self.countries()[i as int] == code@);
                assert(self.countries().contains(code@));
                return true;
            }
            i = i + 1;
        }
        false
    }
}

/// The answers gathered so far for one connection; `None` where the lookup
/// has not been made.
#[derive(Debug, Clone, PartialEq, Eq)]
pub struct Answers {
    pub cache: Option<CacheStatus>,
    pub asn: Option<AsnLookup>,
    pub country: Option<CountryLookup>,
}

/// What to do next with a connection under validation.
#[derive(Debug, Clone, Copy, PartialEq, Eq)]
pub enum Admission {
    LookupCache,
    LookupAsn,
    LookupCountry,
    /// Dial upstream and relay.
    Admit,
    /// Send one Disconnect frame carrying the error's message and close;
    /// when `block` holds, first write `block_entry` for the address.
    Reject { error: Error, block: bool },
}

/// The next step for `ip`, given the answers so far.
pub open spec fn admission_step(
    ip: IpAddress,
    asns: Seq<u32>,
    countries: Seq<Seq<char>>,
    protection_mode: i64,
    answers: Answers,
) -> Admission {
    match answers.cache {
        None => Admission::LookupCache,
        Some(CacheStatus::Blocked) => Admission::Reject {
            error: Error::IpBlockedInCache(ip),
            block: false,
        },
        Some(CacheStatus::AllowListed) => Admission::Admit,
        Some(CacheStatus::Absent) => match answers.asn {
            None => Admission::LookupAsn,
            Some(a) => if asn_listed(asns, a) {
                Admission::Reject { error: Error::AsnBlocked(ip), block: true }
            } else if protection_mode != 1 {
                Admission::Admit
            } else {
                match answers.country {
                    None => Admission::LookupCountry,
                    Some(c) => if country_listed(countries, c) {
                        Admission::Reject { error: Error::CountryBlocked(ip), block: true }
                    } else {
                        Admission::Admit
                    },
                }
            },
        },
    }
}

impl Blocklists {
    /// The next step of validating a connection from `ip`: which lookup to
    /// make, or the verdict. Countries are consulted only when
    /// `protection_mode` is 1.
    pub fn next_step(&self, ip: IpAddress, protection_mode: i64, answers: &Answers) -> (r:
        Admission)
        ensures
            r == admission_step(
                ip,
                self.asn_blacklist@,
                self.countries(),
                protection_mode,
                *answers,
            ),
    {
        match answers.cache {
            None => Admission::LookupCache,
            Some(CacheStatus::Blocked) => Admission::Reject {
                error: Error::IpBlockedInCache(ip),
                block: false,
            },
            Some(CacheStatus::AllowListed) => Admission::Admit,
            Some(CacheStatus::Absent) => match &answers.asn {
                None => Admission::LookupAsn,
                Some(a) => {
                    if self.in_asn_blacklist(a) {
                        Admission::Reject { error: Error::AsnBlocked(ip), block: true }
                    } else if protection_mode != 1 {
                        Admission::Admit
                    } else {
                        match &answers.country {
                            None => Admission::LookupCountry,
                            Some(c) => {
                                if self.in_country_blacklist(c) {
                                    Admission::Reject {
                                        error: Error::CountryBlocked(ip),
                                        block: true,
                                    }
                                } else {
                                    Admission::Admit
                                }
                            },
                        }
                    }
                },
            },
        }
    }
}

/// The protection-mode gauge value for an analysis verdict.
pub fn protection_mode(attack: bool) -> (r: i64)
    ensures
        r == (if attack {
            1i64
        } else {
            0i64
        }),
{
    if attack {
        1
    } else {
        0
    }
}

/// An address the cache holds as blocked is rejected as such, with no new
/// cache write, whatever its other lookups would say. (`rejection_frame`
/// gives the one frame sent for it, and proves it a single frame.)
pub proof fn lemma_cache_blocked_rejects(
    ip: IpAddress,
    asns: Seq<u32>,
    countries: Seq<Seq<char>>,
    protection_mode: i64,
    asn: Option<AsnLookup>,
    country: Option<CountryLookup>,
)
    ensures
        admission_step(
            ip,
            asns,
            countries,
            protection_mode,
            Answers { cache: Some(CacheStatus::Blocked), asn, country },
        ) == (Admission::Reject { error: Error::IpBlockedInCache(ip), block: false }),
{
}

/// An address not in the cache whose ASN is listed (or cannot be resolved)
/// is rejected for its ASN and blocked in the cache, for at least an hour.
pub proof fn lemma_listed_asn_blocks(
    ip: IpAddress,
    asns: Seq<u32>,
    countries: Seq<Seq<char>>,
    protection_mode: i64,
    lookup: AsnLookup,
    country: Option<CountryLookup>,
)
    requires
        asn_listed(asns, lookup),
    ensures
        admission_step(
            ip,
            asns,
            countries,
            protection_mode,
            Answers { cache: Some(CacheStatus::Absent), asn: Some(lookup), country },
        ) == (Admission::Reject { error: Error::AsnBlocked(ip), block: true }),
        BLOCK_TTL_SECS >= 3600,
{
}

/// Once cache and ASN let an address through, its country is asked for
/// exactly when protection mode is 1; outside protection mode the country
/// has no say.
pub proof fn lemma_country_checked_iff_protection(
    ip: IpAddress,
    asns: Seq<u32>,
    countries: Seq<Seq<char>>,
    protection_mode: i64,
    lookup: AsnLookup,
    country: CountryLookup,
)
    requires
        !asn_listed(asns, lookup),
    ensures
        (admission_step(
            ip,
            asns,
            countries,
            protection_mode,
            Answers { cache: Some(CacheStatus::Absent), asn: Some(lookup), country: None },
        ) == Admission::LookupCountry) <==> protection_mode == 1,
        protection_mode != 1 ==> admission_step(
            ip,
            asns,
            countries,
            protection_mode,
            Answers { cache: Some(CacheStatus::Absent), asn: Some(lookup), country: Some(country) },
        ) == Admission::Admit,
{
}

} // verus!
