//! Statistical attack detection over periodic snapshots of connection
//! counters.
//!
//! Each snapshot of cumulative counters becomes one sample of per-interval
//! deltas, kept in a bounded first-in first-out history. The analysis
//! compares the newest sample against statistics of the whole history, the
//! newest sample included.
use std::collections::VecDeque;

use vstd::prelude::*;

use crate::error::Error;
use crate::stats::{
    above_band,
    below_band,
    exceeds_band,
    falls_below_band,
    median,
    median_of,
    lemma_sum_le,
    samples_in_range,
    SAMPLE_CEILING,
    sum,
    sum_of,
    MAX_SAMPLES,
    WIDE_CEILING,
};

verus! {

/// Success rate of a sample whose every attempt succeeded, in hundredths of a
/// percent.
pub const FULL_SUCCESS_RATE: u128 = 10_000;

/// Largest success rate a sample can have: every counted connection of a
/// 64-bit counter for a single attempt.
pub const RATE_CEILING: u128 = 0xFFFF_FFFF_FFFF_FFFF * 10_000;

/// Cumulative counters read from the metrics registry.
#[derive(Debug, Clone, Copy, PartialEq, Eq, Structural)]
pub struct ConnectionMetrics {
    pub total_conns: u64,
    pub incoming_attempts: u64,
    pub request_total: u64,
}

/// One sample of the history: what happened during one interval.
///
/// `success_rate` is in hundredths of a percent (`FULL_SUCCESS_RATE` is
/// 100 %), rounded down.
#[derive(Debug, Clone, Copy, PartialEq, Eq, Structural)]
pub struct AggregatedMetrics {
    pub total_conns: u64,
    pub incoming_attempts: u64,
    pub success_rate: u128,
    pub request_total: u64,
}

/// Growth of a counter since the previous snapshot; 0 when it fell.
pub open spec fn counter_delta(current: u64, previous: u64) -> u64 {
    if current <= previous {
        0
    } else {
        (current - previous) as u64
    }
}

/// `total / attempts * 100 %` in hundredths of a percent, rounded down;
/// 100 % when nothing was attempted.
pub open spec fn success_rate_of(total: u64, attempts: u64) -> u128 {
    if attempts == 0 {
        FULL_SUCCESS_RATE
    } else {
        (total * FULL_SUCCESS_RATE / (attempts as int)) as u128
    }
}

/// The sample made from snapshot `m` after snapshot `previous`: the growth
/// of each counter (the first snapshot counts from zero, so it gives the raw
/// values).
pub open spec fn aggregate(previous: Option<ConnectionMetrics>, m: ConnectionMetrics) -> AggregatedMetrics {
    let base = match previous {
        Some(p) => p,
        None => ConnectionMetrics { total_conns: 0, incoming_attempts: 0, request_total: 0 },
    };
    let total = counter_delta(m.total_conns, base.total_conns);
    let attempts = counter_delta(m.incoming_attempts, base.incoming_attempts);
    AggregatedMetrics {
        total_conns: total,
        incoming_attempts: attempts,
        success_rate: success_rate_of(total, attempts),
        request_total: counter_delta(m.request_total, base.request_total),
    }
}

/// `h` with `sample` appended, the oldest sample leaving when more than
/// `bound` would remain.
pub open spec fn appended(h: Seq<AggregatedMetrics>, sample: AggregatedMetrics, bound: nat) -> Seq<
    AggregatedMetrics,
> {
    if h.len() + 1 > bound {
        h.push(sample).drop_first()
    } else {
        h.push(sample)
    }
}

pub open spec fn sample_in_range(m: AggregatedMetrics) -> bool {
    m.success_rate <= RATE_CEILING
}

pub open spec fn attempts_of(h: Seq<AggregatedMetrics>) -> Seq<u128> {
    h.map_values(|m: AggregatedMetrics| m.incoming_attempts as u128)
}

pub open spec fn rates_of(h: Seq<AggregatedMetrics>) -> Seq<u128> {
    h.map_values(|m: AggregatedMetrics| m.success_rate)
}

pub open spec fn requests_of(h: Seq<AggregatedMetrics>) -> Seq<u128> {
    h.map_values(|m: AggregatedMetrics| m.request_total as u128)
}

/// At most `MAX_SAMPLES` values, none above `RATE_CEILING`.
pub open spec fn series_bounded(s: Seq<u128>) -> bool {
    &&& s.len() <= MAX_SAMPLES
    &&& forall|i: int| 0 <= i < s.len() ==> s[i] <= RATE_CEILING
}

/// The request count exceeds the median of the history by more than
/// `flood_tenths / 10` times.
pub open spec fn packet_flood(h: Seq<AggregatedMetrics>, current: u128, flood_tenths: int) -> bool {
    h.len() > 0 && 10 * current > median(requests_of(h)) * flood_tenths
}

/// How many of three moderate signs hold: attempts above 1.5 times their
/// mean, success rate below 0.6 times its mean, requests above twice their
/// mean.
pub open spec fn moderate_score(h: Seq<AggregatedMetrics>, current: AggregatedMetrics) -> int {
    let n = h.len() as int;
    (if 2 * n * current.incoming_attempts > 3 * sum(attempts_of(h)) {
        1int
    } else {
        0
    }) + (if 5 * n * current.success_rate < 3 * sum(rates_of(h)) {
        1int
    } else {
        0
    }) + (if n * current.request_total > 2 * sum(requests_of(h)) {
        1int
    } else {
        0
    })
}

/// The verdict on history `h`: an attack when it holds at least two samples
/// and its newest sample shows a packet flood, an anomaly of attempts,
/// success rate or requests, or (from three samples on) two moderate signs.
pub open spec fn attack_detected(h: Seq<AggregatedMetrics>, sigma_tenths: int, flood_tenths: int) -> bool {
    let current = h.last();
    &&& h.len() >= 2
    &&& {
        ||| packet_flood(h, current.request_total as u128, flood_tenths)
        ||| above_band(attempts_of(h), current.incoming_attempts as int, sigma_tenths)
        ||| below_band(rates_of(h), current.success_rate as int, sigma_tenths)
        ||| above_band(requests_of(h), current.request_total as int, sigma_tenths)
        ||| (h.len() >= 3 && moderate_score(h, current) >= 2)
    }
}

/// Turns counter snapshots into a bounded history and judges it.
#[derive(Debug)]
pub struct DDoSDetector {
    aggregated_history: VecDeque<AggregatedMetrics>,
    last_snapshot: Option<ConnectionMetrics>,
    max_history_size: usize,
    sigma_threshold: u16,
    packet_flood_threshold: u16,
}

impl DDoSDetector {
    /// The samples, oldest first.
    pub closed spec fn history(&self) -> Seq<AggregatedMetrics> {
        self.aggregated_history@
    }

    /// The snapshot that the newest sample was made from.
    pub closed spec fn last_snapshot(&self) -> Option<ConnectionMetrics> {
        self.last_snapshot
    }

    /// The most samples the history keeps.
    pub closed spec fn bound(&self) -> nat {
        self.max_history_size as nat
    }

    /// The deviation factor of the anomaly tests, in tenths.
    pub closed spec fn sigma_tenths(&self) -> int {
        self.sigma_threshold as int
    }

    /// The factor over the median that makes a packet flood, in tenths.
    pub closed spec fn flood_tenths(&self) -> int {
        self.packet_flood_threshold as int
    }

    pub closed spec fn wf(&self) -> bool {
        &&& 1 <= self.max_history_size <= MAX_SAMPLES
        &&& self.aggregated_history@.len() <= self.max_history_size
        &&& forall|i: int|
            0 <= i < self.aggregated_history@.len() ==> sample_in_range(
                #[trigger] self.aggregated_history@[i],
            )
    }

    /// A detector with an empty history of at most `max_history_size`
    /// samples; both thresholds are in tenths (`30` stands for 3.0).
    ///
    /// The bound may not exceed `MAX_SAMPLES` (4096): the statistics form
    /// sums of squares over the whole history in 256-bit arithmetic, which
    /// that limit keeps from overflowing.
    pub fn new(max_history_size: usize, sigma_threshold: u16, packet_flood_threshold: u16) -> (r:
        Self)
        requires
            1 <= max_history_size <= MAX_SAMPLES,
        ensures
            r.wf(),
            r.history() == Seq::<AggregatedMetrics>::empty(),
            r.last_snapshot() == None::<ConnectionMetrics>,
            r.bound() == max_history_size,
            r.bound() >= 1,
            r.sigma_tenths() == sigma_threshold,
            r.flood_tenths() == packet_flood_threshold,
    {
        DDoSDetector {
            aggregated_history: VecDeque::with_capacity(max_history_size),
            last_snapshot: None,
            max_history_size,
            sigma_threshold,
            packet_flood_threshold,
        }
    }

    fn counter_delta(current: u64, previous: u64) -> (r: u64)
        ensures
            r == counter_delta(current, previous),
    {
        if current <= previous {
            0
        } else {
            current - previous
        }
    }

    /// `total / attempts * 100 %` in hundredths of a percent.
    pub fn calculate_success_rate(total: u64, attempts: u64) -> (r: u128)
        ensures
            r == success_rate_of(total, attempts),
            r <= RATE_CEILING,
    {
        if attempts == 0 {
            return FULL_SUCCESS_RATE;
        }
        proof {
            assert(total as int * 10_000 / attempts as int <= total as int * 10_000) by (
            nonlinear_arith)
                requires
                    attempts >= 1,
                    total >= 0,
            ;
        }
        (total as u128) * FULL_SUCCESS_RATE / (attempts as u128)
    }

    /// The number of samples held.
    pub fn len(&self) -> (r: usize)
        ensures
            r == self.history().len(),
    {
        self.aggregated_history.len()
    }

    /// The newest sample, if any.
    pub fn latest(&self) -> (r: Option<AggregatedMetrics>)
        ensures
            r == (if self.history().len() == 0 {
                None::<AggregatedMetrics>
            } else {
                Some(self.history().last())
            }),
    {
        let n = self.aggregated_history.len();
        if n == 0 {
            None
        } else {
            Some(self.aggregated_history[n - 1])
        }
    }

    /// Records the snapshot `metrics` as one more sample.
    pub fn add_metrics(&mut self, metrics: ConnectionMetrics)
        requires
            old(self).wf(),
        ensures
            final(self).wf(),
            final(self).history() == appended(
                old(self).history(),
                aggregate(old(self).last_snapshot(), metrics),
                old(self).bound(),
            ),
            final(self).history().len() <= final(self).bound(),
            final(self).history().len() >= 1,
            final(self).history().last() == aggregate(old(self).last_snapshot(), metrics),
            final(self).last_snapshot() == Some(metrics),
            final(self).bound() == old(self).bound(),
            final(self).sigma_tenths() == old(self).sigma_tenths(),
            final(self).flood_tenths() == old(self).flood_tenths(),
    {
        let base = match self.last_snapshot {
            Some(p) => p,
            None => ConnectionMetrics { total_conns: 0, incoming_attempts: 0, request_total: 0 },
        };
        let total = Self::counter_delta(metrics.total_conns, base.total_conns);
        let attempts = Self::counter_delta(metrics.incoming_attempts, base.incoming_attempts);
        let aggregated = AggregatedMetrics {
            total_conns: total,
            incoming_attempts: attempts,
            success_rate: Self::calculate_success_rate(total, attempts),
            request_total: Self::counter_delta(metrics.request_total, base.request_total),
        };
        let ghost before = self.aggregated_history@;
        if self.aggregated_history.len() >= self.max_history_size {
            self.aggregated_history.pop_front();
        }
        self.aggregated_history.push_back(aggregated);
        self.last_snapshot = Some(metrics);
        proof {
            let h = self.aggregated_history@;
            assert(h =~= appended(before, aggregated, self.max_history_size as nat));
            assert forall|i: int| 0 <= i < h.len() implies sample_in_range(#[trigger] h[i]) by {
                if i < h.len() - 1 {
                    if before.len() + 1 > self.max_history_size {
                        assert(h[i] == before[i + 1]);
                    } else {
                        assert(h[i] == before[i]);
                    }
                }
            }
        }
    }

    /// The attempts, success rates and request counts of the history, oldest
    /// first.
    fn series(&self) -> (r: (Vec<u128>, Vec<u128>, Vec<u128>))
        requires
            self.wf(),
        ensures
            r.0@ == attempts_of(self.history()),
            r.1@ == rates_of(self.history()),
            r.2@ == requests_of(self.history()),
            series_bounded(r.0@),
            series_bounded(r.1@),
            series_bounded(r.2@),
    {
        let ghost h = self.aggregated_history@;
        let mut attempts: Vec<u128> = Vec::new();
        let mut rates: Vec<u128> = Vec::new();
        let mut requests: Vec<u128> = Vec::new();
        let mut i: usize = 0;
        while i < self.aggregated_history.len()
            invariant
                self.wf(),
                h == self.aggregated_history@,
                i <= h.len(),
                attempts@ == attempts_of(h.subrange(0, i as int)),
                rates@ == rates_of(h.subrange(0, i as int)),
                requests@ == requests_of(h.subrange(0, i as int)),
            decreases h.len() - i,
        {
            let m = self.aggregated_history[i];
            attempts.push(m.incoming_attempts as u128);
            rates.push(m.success_rate);
            requests.push(m.request_total as u128);
            i = i + 1;
            assert(attempts@ =~= attempts_of(h.subrange(0, i as int)));
            assert(rates@ =~= rates_of(h.subrange(0, i as int)));
            assert(requests@ =~= requests_of(h.subrange(0, i as int)));
        }
        assert(h.subrange(0, h.len() as int) =~= h);
        assert forall|j: int| 0 <= j < h.len() implies sample_in_range(#[trigger] h[j]) by {}
        assert(0xFFFF_FFFF_FFFF_FFFFu128 <= RATE_CEILING);
        (attempts, rates, requests)
    }

    /// Whether `current` exceeds the median of `requests` more than the
    /// flood threshold allows.
    fn is_packet_flood(&self, requests: &Vec<u128>, current: u128) -> (r: bool)
        requires
            self.wf(),
            requests@ == requests_of(self.history()),
            series_bounded(requests@),
            current <= RATE_CEILING,
        ensures
            r == packet_flood(self.history(), current, self.flood_tenths()),
    {
        if self.aggregated_history.len() == 0 {
            return false;
        }
        let median_packets = median_of(requests);
        proof {
            let j = choose|j: int| 0 <= j < requests@.len() && requests@[j] == median_packets;
            assert(requests@[j] <= RATE_CEILING);
            assert(median_packets as int * self.packet_flood_threshold <= RATE_CEILING * 0xFFFF)
                by (nonlinear_arith)
                requires
                    median_packets <= RATE_CEILING,
                    self.packet_flood_threshold <= 0xFFFF,
            ;
        }
        10 * current > median_packets * (self.packet_flood_threshold as u128)
    }

    /// Whether two of the three moderate signs hold (never with fewer than
    /// three samples).
    fn check_combined_attack(
        &self,
        attempts: &Vec<u128>,
        rates: &Vec<u128>,
        requests: &Vec<u128>,
        current: AggregatedMetrics,
    ) -> (r: bool)
        requires
            self.wf(),
            attempts@ == attempts_of(self.history()),
            rates@ == rates_of(self.history()),
            requests@ == requests_of(self.history()),
            series_bounded(attempts@),
            series_bounded(rates@),
            series_bounded(requests@),
            sample_in_range(current),
        ensures
            r == (self.history().len() >= 3 && moderate_score(self.history(), current) >= 2),
    {
        if self.aggregated_history.len() < 3 {
            return false;
        }
        let n: u128 = self.aggregated_history.len() as u128;
        proof {
            assert(RATE_CEILING <= WIDE_CEILING);
        }
        let attempts_sum = sum_of(attempts);
        let rates_sum = sum_of(rates);
        let requests_sum = sum_of(requests);
        let x: u128 = current.incoming_attempts as u128;
        let y: u128 = current.success_rate;
        let z: u128 = current.request_total as u128;
        proof {
            lemma_sum_le(attempts@, RATE_CEILING as int);
            lemma_sum_le(rates@, RATE_CEILING as int);
            lemma_sum_le(requests@, RATE_CEILING as int);
            assert(0xFFFF_FFFF_FFFF_FFFFu128 <= RATE_CEILING);
            assert(attempts@.len() * RATE_CEILING <= MAX_SAMPLES * RATE_CEILING) by (nonlinear_arith)
                requires
                    attempts@.len() <= MAX_SAMPLES,
            ;
            assert(n * x <= MAX_SAMPLES * RATE_CEILING) by (nonlinear_arith)
                requires
                    n <= MAX_SAMPLES,
                    x <= RATE_CEILING,
            ;
            assert(n * y <= MAX_SAMPLES * RATE_CEILING) by (nonlinear_arith)
                requires
                    n <= MAX_SAMPLES,
                    y <= RATE_CEILING,
            ;
            assert(n * z <= MAX_SAMPLES * RATE_CEILING) by (nonlinear_arith)
                requires
                    n <= MAX_SAMPLES,
                    z <= RATE_CEILING,
            ;
        }
        let mut attack_score: u8 = 0;
        if 2 * (n * x) > 3 * attempts_sum {
            attack_score = attack_score + 1;
        }
        if 5 * (n * y) < 3 * rates_sum {
            attack_score = attack_score + 1;
        }
        if n * z > 2 * requests_sum {
            attack_score = attack_score + 1;
        }
        proof {
            assert(2 * (n * x) == 2 * n * x) by (nonlinear_arith);
            assert(5 * (n * y) == 5 * n * y) by (nonlinear_arith);
        }
        attack_score >= 2
    }

    /// Whether the history shows an attack (never with fewer than two
    /// samples). The error of the deviation helpers cannot arise here, as
    /// they run on two samples at least.
    pub fn analyze(&self) -> (r: Result<bool, Error>)
        requires
            self.wf(),
        ensures
            r == Ok::<bool, Error>(
                attack_detected(self.history(), self.sigma_tenths(), self.flood_tenths()),
            ),
    {
        if self.aggregated_history.len() < 2 {
            return Ok(false);
        }
        let current = self.aggregated_history[self.aggregated_history.len() - 1];
        assert(current == self.history().last());
        assert(sample_in_range(self.aggregated_history@[self.aggregated_history@.len() - 1]));
        let (attempts, rates, requests) = self.series();
        let ghost last = self.history().len() - 1;
        assert(attempts@[last] == current.incoming_attempts as u128);
        assert(rates@[last] == current.success_rate);
        assert(requests@[last] == current.request_total as u128);
        assert(0xFFFF_FFFF_FFFF_FFFFu128 <= RATE_CEILING);
        proof {
            lemma_bounded_in_range(attempts@);
            lemma_bounded_in_range(rates@);
            lemma_bounded_in_range(requests@);
        }
        if self.is_packet_flood(&requests, current.request_total as u128) {
            return Ok(true);
        }
        let rate_anomaly = match exceeds_band(
            &attempts,
            current.incoming_attempts as u128,
            self.sigma_threshold,
        ) {
            Ok(b) => b,
            Err(e) => {
                return Err(e);
            },
        };
        let success_anomaly = match falls_below_band(&rates, current.success_rate, self.sigma_threshold) {
            Ok(b) => b,
            Err(e) => {
                return Err(e);
            },
        };
        let packet_anomaly = match exceeds_band(
            &requests,
            current.request_total as u128,
            self.sigma_threshold,
        ) {
            Ok(b) => b,
            Err(e) => {
                return Err(e);
            },
        };
        Ok(rate_anomaly || success_anomaly || packet_anomaly || self.check_combined_attack(
            &attempts,
            &rates,
            &requests,
            current,
        ))
    }
}

proof fn lemma_bounded_in_range(s: Seq<u128>)
    requires
        series_bounded(s),
    ensures
        samples_in_range(s),
{
    assert(RATE_CEILING <= SAMPLE_CEILING);
}

/// The history after recording `snapshots` in order, starting from history
/// `h` whose newest sample came from `previous`.
pub open spec fn history_after(
    h: Seq<AggregatedMetrics>,
    previous: Option<ConnectionMetrics>,
    snapshots: Seq<ConnectionMetrics>,
    bound: nat,
) -> Seq<AggregatedMetrics>
    decreases snapshots.len(),
{
    if snapshots.len() == 0 {
        h
    } else {
        history_after(
            appended(h, aggregate(previous, snapshots[0]), bound),
            Some(snapshots[0]),
            snapshots.drop_first(),
            bound,
        )
    }
}

/// Whatever snapshots are recorded, the history never holds more samples
/// than its bound.
pub proof fn lemma_history_bounded(
    h: Seq<AggregatedMetrics>,
    previous: Option<ConnectionMetrics>,
    snapshots: Seq<ConnectionMetrics>,
    bound: nat,
)
    requires
        bound >= 1,
        h.len() <= bound,
    ensures
        history_after(h, previous, snapshots, bound).len() <= bound,
    decreases snapshots.len(),
{
    if snapshots.len() > 0 {
        lemma_history_bounded(
            appended(h, aggregate(previous, snapshots[0]), bound),
            Some(snapshots[0]),
            snapshots.drop_first(),
            bound,
        );
    }
}

/// For counters that did not fall since the previous snapshot, each count
/// of the new sample is exactly the counter's growth, so none is negative.
pub proof fn lemma_deltas_track_growth(previous: ConnectionMetrics, m: ConnectionMetrics)
    requires
        previous.total_conns <= m.total_conns,
        previous.incoming_attempts <= m.incoming_attempts,
        previous.request_total <= m.request_total,
    ensures
        ({
            let a = aggregate(Some(previous), m);
            &&& 0 <= a.total_conns == m.total_conns - previous.total_conns
            &&& 0 <= a.incoming_attempts == m.incoming_attempts - previous.incoming_attempts
            &&& 0 <= a.request_total == m.request_total - previous.request_total
        }),
{
}

} // verus!
