use vstd::prelude::*;
use vstd::string::StringExecFns;

use crate::addr::{ip_text, lemma_ip_text_len, IpAddress};
use crate::text::ascii_chars;

verus! {

/// Failure while encoding or decoding protocol data.
#[derive(Debug, Clone, Copy, PartialEq, Eq, Structural)]
pub enum PacketError {
    /// The input ended before the value was complete.
    UnexpectedEof,
    /// The input is malformed, or a value exceeds what a frame may carry.
    InvalidData,
    /// A string's bytes are not valid UTF-8.
    Utf8,
}

/// Why a connection was refused or a step of its handling failed.
#[derive(Debug, Clone, Copy, PartialEq, Eq)]
pub enum Error {
    IOError,
    UpstreamUnreachable,
    InvalidConnection,
    IpBlockedInCache(IpAddress),
    AsnBlocked(IpAddress),
    CountryBlocked(IpAddress),
    GeoLookupFailed,
    CountryNotFound,
    CacheError,
    InvalidData,
    InsufficientData,
    InvalidHAProxyHeader,
}

/// The human-readable message of `e`.
pub open spec fn error_message(e: Error) -> Seq<char> {
    match e {
        Error::IOError => "IO error"@,
        Error::UpstreamUnreachable => "upstream unreachable"@,
        Error::InvalidConnection => "invalid connection"@,
        Error::IpBlockedInCache(ip) => "IP address is blocked ip="@ + ascii_chars(ip_text(ip)),
        Error::AsnBlocked(ip) => "ASN is blocked ip="@ + ascii_chars(ip_text(ip)),
        Error::CountryBlocked(ip) => "Country is blocked ip="@ + ascii_chars(ip_text(ip)),
        Error::GeoLookupFailed => "maxminddb lookup failed"@,
        Error::CountryNotFound => "maxminddb: country by ip not found"@,
        Error::CacheError => "memcached error"@,
        Error::InvalidData => "invalid data"@,
        Error::InsufficientData => "insufficient data"@,
        Error::InvalidHAProxyHeader => "invalid HAProxy header"@,
    }
}

impl Error {
    /// The human-readable message, as shown to a rejected client.
    pub fn to_string(&self) -> (r: String)
        ensures
            r@ == error_message(*self),
    {
        match self {
            Error::IOError => String::from_str("IO error"),
            Error::UpstreamUnreachable => String::from_str("upstream unreachable"),
            Error::InvalidConnection => String::from_str("invalid connection"),
            Error::IpBlockedInCache(ip) => {
                let mut m = String::from_str("IP address is blocked ip=");
                m.append(ip.to_string().as_str());
                m
            },
            Error::AsnBlocked(ip) => {
                let mut m = String::from_str("ASN is blocked ip=");
                m.append(ip.to_string().as_str());
                m
            },
            Error::CountryBlocked(ip) => {
                let mut m = String::from_str("Country is blocked ip=");
                m.append(ip.to_string().as_str());
                m
            },
            Error::GeoLookupFailed => String::from_str("maxminddb lookup failed"),
            Error::CountryNotFound => String::from_str("maxminddb: country by ip not found"),
            Error::CacheError => String::from_str("memcached error"),
            Error::InvalidData => String::from_str("invalid data"),
            Error::InsufficientData => String::from_str("insufficient data"),
            Error::InvalidHAProxyHeader => String::from_str("invalid HAProxy header"),
        }
    }
}

/// Every message is short: at most 80 characters.
pub proof fn lemma_message_len(e: Error)
    ensures
        error_message(e).len() <= 80,
{
    reveal_strlit("IO error");
    reveal_strlit("upstream unreachable");
    reveal_strlit("invalid connection");
    reveal_strlit("IP address is blocked ip=");
    reveal_strlit("ASN is blocked ip=");
    reveal_strlit("Country is blocked ip=");
    reveal_strlit("maxminddb lookup failed");
    reveal_strlit("maxminddb: country by ip not found");
    reveal_strlit("memcached error");
    reveal_strlit("invalid data");
    reveal_strlit("insufficient data");
    reveal_strlit("invalid HAProxy header");
    match e {
        Error::IpBlockedInCache(ip) => lemma_ip_text_len(ip),
        Error::AsnBlocked(ip) => lemma_ip_text_len(ip),
        Error::CountryBlocked(ip) => lemma_ip_text_len(ip),
        _ => {},
    }
}

} // verus!
