//! The burn fee: a decaying gauge that controls mining cadence.
//!
//! The fee is a plain integer; the decay divides it by the elapsed time
//! in milliseconds (floored at one), scaled so that the value at zero
//! elapsed time is exactly `fee * 1000`.

use vstd::prelude::*;
use crate::helper;

verus! {

/// Fee pressure, the target block interval in seconds, and the timestamps
/// that the decay is measured against.
#[derive(Clone, Copy, PartialEq, Eq, Structural, Debug)]
pub struct BurnFee {
    pub fee: u64,
    pub heartbeat: u32,
    pub last_block_timestamp: u128,
    pub last_block_delta: u128,
}

/// The decayed fee after `elapsed` milliseconds: zero once twice the
/// heartbeat has passed, otherwise `fee * 1000` divided by the elapsed
/// milliseconds (floored at one).
pub open spec fn spec_burnfee_calc(fee: u64, heartbeat: u32, elapsed: u128) -> int {
    if elapsed >= 2000 * (heartbeat as int) {
        0
    } else if elapsed == 0 {
        (fee as int) * 1000
    } else {
        ((fee as int) * 1000) / (elapsed as int)
    }
}

/// The decay's two fixed points: the fee is exactly zero from twice the
/// heartbeat on, and exactly a thousandfold at zero elapsed time (the
/// one-millisecond floor).
pub proof fn lemma_burnfee_decay(fee: u64, heartbeat: u32, elapsed: u128)
    ensures
        elapsed >= 2000 * (heartbeat as int) ==> spec_burnfee_calc(fee, heartbeat, elapsed) == 0,
        elapsed == 0 && heartbeat > 0 ==> spec_burnfee_calc(fee, heartbeat, elapsed) == (
        fee as int) * 1000,
        spec_burnfee_calc(fee, heartbeat, elapsed) >= 0,
{
    if !(elapsed >= 2000 * (heartbeat as int)) && elapsed != 0 {
        assert(((fee as int) * 1000) / (elapsed as int) >= 0) by (nonlinear_arith)
            requires
                fee >= 0,
                elapsed > 0,
        ;
    }
}

/// Whether `r` is the integer square root of `n`.
pub open spec fn spec_is_isqrt(n: int, r: int) -> bool {
    0 <= r && r * r <= n && n < (r + 1) * (r + 1)
}

/// The integer square root is unique.
pub proof fn lemma_isqrt_unique(n: int, r1: int, r2: int)
    requires
        spec_is_isqrt(n, r1),
        spec_is_isqrt(n, r2),
    ensures
        r1 == r2,
{
    if r1 < r2 {
        assert((r1 + 1) * (r1 + 1) <= r2 * r2) by (nonlinear_arith)
            requires
                0 <= r1 < r2,
        ;
    }
    if r2 < r1 {
        assert((r2 + 1) * (r2 + 1) <= r1 * r1) by (nonlinear_arith)
            requires
                0 <= r2 < r1,
        ;
    }
}

/// The integer square root of `n`, by binary search.
pub fn isqrt_u64(n: u64) -> (r: u64)
    ensures
        spec_is_isqrt(n as int, r as int),
{
    let mut lo: u64 = 0;
    let mut hi: u64 = 4_294_967_295;
    proof {
        assert((hi as int + 1) * (hi as int + 1) > n as int) by (nonlinear_arith)
            requires
                n <= u64::MAX,
                hi == 4_294_967_295u64,
        ;
    }
    while lo < hi
        invariant
            lo <= hi,
            hi <= 4_294_967_295,
            (lo as int) * (lo as int) <= n as int,
            (hi as int + 1) * (hi as int + 1) > n as int,
        decreases hi - lo,
    {
        let mid = lo + (hi - lo + 1) / 2;
        proof {
            assert((mid as int) * (mid as int) < 0x1_0000_0000_0000_0000_0000_0000_0000_0000)
                by (nonlinear_arith)
                requires
                    0 <= mid <= 4_294_967_295,
            ;
        }
        if (mid as u128) * (mid as u128) <= n as u128 {
            lo = mid;
        } else {
            hi = mid - 1;
        }
    }
    lo
}

/// The fee after the damped feedback adjustment: scaled by the square
/// root of `heartbeat * 10^7` and divided by the inter-block interval
/// plus one, saturating at the `u64` range.
pub open spec fn spec_adjusted_fee(fee: u64, q: u64, delta: int) -> u64 {
    let v = ((fee as int) * (q as int)) / (delta + 1);
    if v > u64::MAX {
        u64::MAX
    } else {
        v as u64
    }
}

impl BurnFee {
    /// The default gauge: fee 10, heartbeat 10 seconds, measured from
    /// the current time.
    pub fn new() -> (r: BurnFee)
        ensures
            r.fee == 10,
            r.heartbeat == 10,
            r.last_block_delta == 0,
    {
        BurnFee {
            fee: 10,
            heartbeat: 10,
            last_block_timestamp: helper::time_since_unix_epoch(),
            last_block_delta: 0,
        }
    }

    /// The decayed fee after `elapsed_time` milliseconds, exactly
    /// [`spec_burnfee_calc`]: zero from twice the heartbeat on, and
    /// `fee * 1000` at zero elapsed time.
    pub fn calculate(&self, elapsed_time: u128) -> (r: u128)
        ensures
            r == spec_burnfee_calc(self.fee, self.heartbeat, elapsed_time),
    {
        if elapsed_time >= 2000u128 * (self.heartbeat as u128) {
            return 0;
        }
        let divisor: u128 = if elapsed_time == 0 {
            1
        } else {
            elapsed_time
        };
        ((self.fee as u128) * 1000) / divisor
    }

    /// The fee decayed by the wall-clock time since the last block; the
    /// clock is outside the model, so only the shape of the result is
    /// promised.
    pub fn return_current_burnfee(&self) -> (r: u128)
        ensures
            exists|e: u128| r == spec_burnfee_calc(self.fee, self.heartbeat, e),
    {
        let now = helper::time_since_unix_epoch();
        let elapsed = if now >= self.last_block_timestamp {
            now - self.last_block_timestamp
        } else {
            0
        };
        let r = self.calculate(elapsed);
        proof {
            assert(r == spec_burnfee_calc(self.fee, self.heartbeat, elapsed));
        }
        r
    }

    /// The fee the previous block's creator burned: the decay evaluated
    /// at the stored inter-block delta.
    pub fn return_previous_burnfee(&self) -> (r: u128)
        ensures
            r == spec_burnfee_calc(self.fee, self.heartbeat, self.last_block_delta),
    {
        self.calculate(self.last_block_delta)
    }

    /// Records the accepted block's timestamp.
    pub fn set_timestamp(&mut self, new_block_timestamp: u128)
        ensures
            *final(self) == (BurnFee { last_block_timestamp: new_block_timestamp, ..*old(self) }),
    {
        self.last_block_timestamp = new_block_timestamp;
    }

    /// Records the interval between the two most recent blocks.
    pub fn set_last_block_delta(&mut self, new_block_timestamp: u128)
        requires
            new_block_timestamp >= old(self).last_block_timestamp,
        ensures
            *final(self) == (BurnFee {
                last_block_delta: (new_block_timestamp - old(self).last_block_timestamp) as u128,
                ..*old(self)
            }),
    {
        self.last_block_delta = new_block_timestamp - self.last_block_timestamp;
    }

    /// Rescales the fee by `sqrt(heartbeat * 10^7)` over the interval
    /// since the last block plus one: a damped controller pulling the
    /// cadence back toward the heartbeat.
    pub fn adjust(&mut self, current_block_timestamp: u128)
        requires
            old(self).last_block_timestamp <= current_block_timestamp,
            current_block_timestamp - old(self).last_block_timestamp < u128::MAX,
        ensures
            exists|q: u64|
                #[trigger] spec_is_isqrt((old(self).heartbeat as int) * 10_000_000, q as int)
                    && *final(self) == (BurnFee {
                    fee: spec_adjusted_fee(
                        old(self).fee,
                        q,
                        (current_block_timestamp - old(self).last_block_timestamp) as int,
                    ),
                    ..*old(self)
                }),
    {
        let q = isqrt_u64((self.heartbeat as u64) * 10_000_000);
        proof {
            assert(q <= 0xffff_ffff) by (nonlinear_arith)
                requires
                    (q as int) * (q as int) <= u64::MAX,
            ;
        }
        let f = self.fee;
        proof {
            assert((f as int) * (q as int) < 0x1_0000_0000_0000_0000_0000_0000_0000_0000)
                by (nonlinear_arith)
                requires
                    0 <= f <= u64::MAX,
                    0 <= q <= 0xffff_ffff,
            ;
        }
        let delta = current_block_timestamp - self.last_block_timestamp;
        let scaled: u128 = (f as u128) * (q as u128);
        let divided: u128 = scaled / (delta + 1);
        let new_fee: u64 = if divided > u64::MAX as u128 {
            u64::MAX
        } else {
            divided as u64
        };
        proof {
            assert(new_fee == spec_adjusted_fee(old(self).fee, q, delta as int));
        }
        self.fee = new_fee;
    }
}

} // verus!
