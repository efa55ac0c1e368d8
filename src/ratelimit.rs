//! Per-address request limiting over a sliding window, and the decisions
//! of the relay between a client and the upstream.
use pingora_limits::rate::Rate;
use vstd::prelude::*;

use crate::addr::IpAddress;

verus! {

/// Length of the rate-limiting window, in seconds.
pub const RATE_WINDOW_SECS: u64 = 60;

#[verifier::external_type_specification]
#[verifier::external_body]
pub struct ExRate(Rate);

/// Relies on `pingora_limits::rate::Rate::new`: an estimator of events per
/// key over windows of `secs` seconds.
#[verifier::external_body]
fn window_estimator(secs: u64) -> Rate {
    Rate::new(std::time::Duration::from_secs(secs))
}

/// Relies on `pingora_limits::rate::Rate::observe`: records one event for
/// `ip` and returns the estimated count of events for it in the current
/// window. The count depends on the time and on other keys that share its
/// slots, so nothing is promised of it.
#[verifier::external_body]
fn observe_one(rate: &Rate, ip: &IpAddress) -> isize {
    rate.observe(ip, 1)
}

/// Whether a window count exceeds the per-window cap.
pub open spec fn over_limit(count: int, limit: int) -> bool {
    count > limit
}

/// Whether a window count exceeds the per-window cap.
pub fn exceeds_rate_limit(count: isize, limit: isize) -> (r: bool)
    ensures
        r == over_limit(count as int, limit as int),
{
    count > limit
}

/// Counts requests per address over a 60 second window.
pub struct RateLimiter {
    rate: Rate,
    max_per_window: isize,
}

impl RateLimiter {
    /// The most requests per address one window lets through.
    pub closed spec fn limit(&self) -> int {
        self.max_per_window as int
    }

    /// A limiter that lets at most `max_per_window` requests per address
    /// through in one window.
    pub fn new(max_per_window: isize) -> (r: Self)
        ensures
            r.limit() == max_per_window,
    {
        RateLimiter { rate: window_estimator(RATE_WINDOW_SECS), max_per_window }
    }

    /// Counts one request from `ip`; gives the count of the current window
    /// and whether it exceeds the cap.
    pub fn observe(&self, ip: &IpAddress) -> (r: (isize, bool))
        ensures
            r.1 == over_limit(r.0 as int, self.limit()),
    {
        let count = observe_one(&self.rate, ip);
        (count, exceeds_rate_limit(count, self.max_per_window))
    }
}

/// Something that happened to a connection being relayed.
#[derive(Debug, Clone, Copy, PartialEq, Eq, Structural)]
pub enum RelayEvent {
    /// The server is shutting down.
    Shutdown,
    /// A read from the client gave this many bytes (0: end of stream).
    ClientRead(usize),
    /// A read from the upstream gave this many bytes (0: end of stream).
    UpstreamRead(usize),
    /// The client was observed against the rate limiter after forwarding;
    /// the flag says whether its window count exceeds the cap.
    RateObserved(bool),
    /// Reading or writing either side failed.
    IoFailed,
}

/// What the relay does about an event.
#[derive(Debug, Clone, Copy, PartialEq, Eq, Structural)]
pub enum RelayAction {
    /// Write this many bytes read from the client to the upstream, then
    /// count them and observe the client against the rate limiter.
    ForwardToUpstream(usize),
    /// Write this many bytes read from the upstream to the client.
    ForwardToClient(usize),
    /// Go on relaying.
    Continue,
    /// Block the client in the cache (`block_entry`), shut its side down;
    /// the relay ends normally.
    BlockClient,
    /// Close both sides; the relay ends normally.
    Close,
    /// The relay ends with an error.
    Fail,
}

/// The action for `event`.
pub open spec fn relay_action(event: RelayEvent) -> RelayAction {
    match event {
        RelayEvent::Shutdown => RelayAction::Close,
        RelayEvent::ClientRead(n) => if n > 0 {
            RelayAction::ForwardToUpstream(n)
        } else {
            RelayAction::Close
        },
        RelayEvent::UpstreamRead(n) => if n > 0 {
            RelayAction::ForwardToClient(n)
        } else {
            RelayAction::Close
        },
        RelayEvent::RateObserved(over) => if over {
            RelayAction::BlockClient
        } else {
            RelayAction::Continue
        },
        RelayEvent::IoFailed => RelayAction::Fail,
    }
}

/// Decides what the relay does about `event`: data is forwarded to the
/// other side, a client over its rate limit is blocked and cut off, an end
/// of stream or shutdown closes, a failure ends with an error.
pub fn relay_step(event: RelayEvent) -> (r: RelayAction)
    ensures
        r == relay_action(event),
{
    match event {
        RelayEvent::Shutdown => RelayAction::Close,
        RelayEvent::ClientRead(n) => {
            if n > 0 {
                RelayAction::ForwardToUpstream(n)
            } else {
                RelayAction::Close
            }
        },
        RelayEvent::UpstreamRead(n) => {
            if n > 0 {
                RelayAction::ForwardToClient(n)
            } else {
                RelayAction::Close
            }
        },
        RelayEvent::RateObserved(over) => {
            if over {
                RelayAction::BlockClient
            } else {
                RelayAction::Continue
            }
        },
        RelayEvent::IoFailed => RelayAction::Fail,
    }
}

} // verus!
