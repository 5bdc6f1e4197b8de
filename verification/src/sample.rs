//! One throughput sample: the transactions of a block over the time since the block
//! before it.

use crate::rate::Rate;
use vstd::prelude::*;

verus! {

/// The interval between two consecutive timestamped blocks and the number of
/// transactions in the later one.
///
/// Its throughput is `tx_count / ((to_ms - from_ms) / 1000)` transactions per second.
/// Two blocks that share a timestamp give an unbounded throughput, whatever the
/// transaction count: such a sample sorts above every finite one.
#[derive(Clone, Copy, Debug, PartialEq, Eq, Structural)]
pub struct TpsSample {
    /// Transactions in the later block.
    pub tx_count: u64,
    /// Timestamp of the earlier block, in milliseconds.
    pub from_ms: u64,
    /// Timestamp of the later block, in milliseconds.
    pub to_ms: u64,
}

impl TpsSample {
    /// Milliseconds from the earlier block to the later one; negative when the clock
    /// went backwards.
    pub open spec fn elapsed(self) -> int {
        self.to_ms - self.from_ms
    }

    /// The sample's throughput in transactions per second.
    pub open spec fn rate(self) -> Rate {
        let elapsed = self.elapsed();
        if elapsed == 0 {
            Rate::Unbounded
        } else if elapsed > 0 {
            Rate::ratio(1000 * self.tx_count, elapsed)
        } else {
            Rate::ratio(-1000 * self.tx_count, -elapsed)
        }
    }

    /// The sample's throughput is not finite.
    pub open spec fn spec_is_unbounded(self) -> bool {
        self.to_ms == self.from_ms
    }

    /// A sample of these three values.
    pub fn new(tx_count: u64, from_ms: u64, to_ms: u64) -> (sample: Self)
        ensures
            sample == (TpsSample { tx_count, from_ms, to_ms }),
    {
        TpsSample { tx_count, from_ms, to_ms }
    }

    /// Milliseconds from the earlier block to the later one.
    pub fn elapsed_ms(self) -> (elapsed: i128)
        ensures
            elapsed == self.elapsed(),
    {
        self.to_ms as i128 - self.from_ms as i128
    }

    /// Whether the two blocks share a timestamp.
    #[verifier::when_used_as_spec(spec_is_unbounded)]
    pub fn is_unbounded(self) -> (unbounded: bool)
        ensures
            unbounded == self.spec_is_unbounded(),
            unbounded == (self.rate() is Unbounded),
    {
        self.to_ms == self.from_ms
    }

    /// Whether this sample's throughput is at most `other`'s.
    pub fn at_most(self, other: TpsSample) -> (holds: bool)
        ensures
            holds == self.rate().le(other.rate()),
    {
        if other.to_ms == other.from_ms {
            return true;
        }
        if self.to_ms == self.from_ms {
            return false;
        }
        let forward: bool = self.to_ms > self.from_ms;
        let other_forward: bool = other.to_ms > other.from_ms;
        let span: u64 = if forward {
            self.to_ms - self.from_ms
        } else {
            self.from_ms - self.to_ms
        };
        let other_span: u64 = if other_forward {
            other.to_ms - other.from_ms
        } else {
            other.from_ms - other.to_ms
        };
        proof {
            lemma_product_fits(self.tx_count, other_span);
            lemma_product_fits(other.tx_count, span);
            lemma_scaled_order(
                self.tx_count as int,
                span as int,
                other.tx_count as int,
                other_span as int,
            );
        }
        let left: u128 = self.tx_count as u128 * other_span as u128;
        let right: u128 = other.tx_count as u128 * span as u128;
        if forward && other_forward {
            left <= right
        } else if !forward && !other_forward {
            right <= left
        } else if other_forward {
            true
        } else {
            self.tx_count == 0 && other.tx_count == 0
        }
    }
}

/// The throughput of a sample is a well-formed rate.
pub proof fn lemma_rate_wf(sample: TpsSample)
    ensures
        sample.rate().wf(),
{
}

/// Two blocks that share a timestamp give the largest throughput there is: no sample
/// lies above one whose elapsed time is zero, and a sample with any other elapsed time
/// lies strictly below it.
pub proof fn lemma_unbounded_is_greatest(zero: TpsSample, other: TpsSample)
    requires
        zero.to_ms == zero.from_ms,
    ensures
        zero.rate() is Unbounded,
        other.rate().le(zero.rate()),
        zero.rate().le(other.rate()) <==> other.to_ms == other.from_ms,
{
}

/// The product of two 64-bit values fits in 128 bits.
proof fn lemma_product_fits(a: u64, b: u64)
    by (nonlinear_arith)
    ensures
        a * b <= u128::MAX,
{
}

/// How two fractions `1000a / s` and `1000b / t`, each taken with either sign, compare
/// by their cross products, in terms of `a * t` and `b * s`.
proof fn lemma_scaled_order(a: int, s: int, b: int, t: int)
    by (nonlinear_arith)
    requires
        a >= 0,
        b >= 0,
        s > 0,
        t > 0,
    ensures
        ((1000 * a) * t <= (1000 * b) * s) == (a * t <= b * s),
        ((-1000 * a) * t <= (-1000 * b) * s) == (b * s <= a * t),
        (-1000 * a) * t <= (1000 * b) * s,
        ((1000 * a) * t <= (-1000 * b) * s) == (a == 0 && b == 0),
{
}

} // verus!
