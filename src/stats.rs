use vstd::prelude::*;

use crate::packet::J1939Packet;

verus! {

/// Interval of the traffic logger's rate report, in milliseconds.
pub const RATE_PERIOD_MS: u64 = 10000;

/// Round-trip time of a ping in microseconds: the time of the reply less the time of
/// the adapter's echo of the request.
pub fn latency(echo: &J1939Packet, pong: &J1939Packet) -> (r: i128)
    ensures
        r == pong@.time() - echo@.time(),
        -0x1_0000_0000_0000_0000 < r < 0x1_0000_0000_0000_0000,
{
    pong.time() as i128 - echo.time() as i128
}

/// Latencies of the pings that were answered, and the number that were not.
pub struct LatencyStats {
    pub samples: u32,
    pub missed: u32,
    pub total: i128,
    pub min: i128,
    pub max: i128,
}

pub open spec fn min_of(a: int, b: int) -> int {
    if a <= b {
        a
    } else {
        b
    }
}

pub open spec fn max_of(a: int, b: int) -> int {
    if a >= b {
        a
    } else {
        b
    }
}

impl LatencyStats {
    /// The total stays within what `samples` latencies can add up to.
    pub open spec fn wf(&self) -> bool {
        -(self.samples as int) * 0x1_0000_0000_0000_0000 <= self.total <= (self.samples as int)
            * 0x1_0000_0000_0000_0000
    }

    pub fn new() -> (r: LatencyStats)
        ensures
            r.wf(),
            r.samples == 0 && r.missed == 0 && r.total == 0,
    {
        LatencyStats { samples: 0, missed: 0, total: 0, min: 0, max: 0 }
    }

    /// Adds an answered ping's latency in microseconds.
    pub fn record(&mut self, latency: i128)
        requires
            old(self).wf(),
            old(self).samples < u32::MAX,
            -0x1_0000_0000_0000_0000 < latency < 0x1_0000_0000_0000_0000,
        ensures
            final(self).wf(),
            final(self).samples == old(self).samples + 1,
            final(self).missed == old(self).missed,
            final(self).total == old(self).total + latency,
            final(self).min == if old(self).samples == 0 {
                latency as int
            } else {
                min_of(old(self).min as int, latency as int)
            },
            final(self).max == if old(self).samples == 0 {
                latency as int
            } else {
                max_of(old(self).max as int, latency as int)
            },
    {
        assert(-(self.samples as int) * 0x1_0000_0000_0000_0000 - 0x1_0000_0000_0000_0000 == -(
        (self.samples + 1) as int) * 0x1_0000_0000_0000_0000) by (nonlinear_arith);
        assert((self.samples as int) * 0x1_0000_0000_0000_0000 + 0x1_0000_0000_0000_0000 == ((
        self.samples + 1) as int) * 0x1_0000_0000_0000_0000) by (nonlinear_arith);
        assert((self.samples as int) * 0x1_0000_0000_0000_0000 <= 0x1_0000_0000
            * 0x1_0000_0000_0000_0000) by (nonlinear_arith)
            requires
                self.samples < 0x1_0000_0000,
        ;
        if self.samples == 0 {
            self.min = latency;
            self.max = latency;
        } else {
            if latency < self.min {
                self.min = latency;
            }
            if latency > self.max {
                self.max = latency;
            }
        }
        self.total = self.total + latency;
        self.samples = self.samples + 1;
    }

    /// Counts a ping that got no answer in time.
    pub fn record_missing(&mut self)
        requires
            old(self).missed < u32::MAX,
        ensures
            final(self).missed == old(self).missed + 1,
            final(self).samples == old(self).samples,
            final(self).total == old(self).total,
            final(self).min == old(self).min,
            final(self).max == old(self).max,
    {
        self.missed = self.missed + 1;
    }
}

/// Frames per second of `count` frames in `elapsed_us` microseconds; `None` when no
/// time elapsed.
pub fn frames_per_second(count: u32, elapsed_us: u64) -> (r: Option<u64>)
    ensures
        elapsed_us == 0 <==> r is None,
        r matches Some(v) ==> v == count as nat * 1_000_000 / elapsed_us as nat,
{
    if elapsed_us == 0 {
        None
    } else {
        let n: u64 = count as u64 * 1_000_000;
        Some(n / elapsed_us)
    }
}

/// Counts the frames of a traffic log and reports their rate once a period has
/// passed.
pub struct RateMeter {
    pub count: u64,
    pub start_ms: u64,
}

impl RateMeter {
    pub fn new(now_ms: u64) -> (r: RateMeter)
        ensures
            r.count == 0 && r.start_ms == now_ms,
    {
        RateMeter { count: 0, start_ms: now_ms }
    }

    /// Counts one frame seen at `now_ms`. Once more than `RATE_PERIOD_MS` has passed
    /// since the start, returns the rate in frames per second over that time and
    /// starts again from `now_ms`.
    pub fn on_frame(&mut self, now_ms: u64) -> (r: Option<u64>)
        requires
            old(self).count < u64::MAX,
        ensures
            ({
                let n = old(self).count + 1;
                let elapsed = now_ms - old(self).start_ms;
                if elapsed > RATE_PERIOD_MS {
                    &&& r == Some((1000 * n / elapsed) as u64)
                    &&& final(self).count == 0
                    &&& final(self).start_ms == now_ms
                } else {
                    &&& r is None
                    &&& final(self).count == n
                    &&& final(self).start_ms == old(self).start_ms
                }
            }),
    {
        self.count = self.count + 1;
        if now_ms > self.start_ms && now_ms - self.start_ms > RATE_PERIOD_MS {
            let elapsed = now_ms - self.start_ms;
            let n = self.count;
            let rate: u128 = 1000 * (n as u128) / (elapsed as u128);
            assert((1000 * (n as int)) / (elapsed as int) <= n) by (nonlinear_arith)
                requires
                    elapsed > 10000,
                    n >= 0,
            ;
            self.count = 0;
            self.start_ms = now_ms;
            Some(rate as u64)
        } else {
            None
        }
    }
}

} // verus!
