//! Polling rates held exactly, as a count of inter-event intervals over a
//! span of microseconds.

use vstd::prelude::*;

verus! {

/// Microseconds in one second.
pub const MICROS_PER_SECOND: u64 = 1_000_000;

/// A polling rate: `intervals` gaps between consecutive events spread over
/// `micros` microseconds, that is `intervals * 1_000_000 / micros` events per
/// second. The zero rate is `0` intervals over `1` microsecond.
#[derive(Clone, Copy, Debug, PartialEq, Eq, Structural)]
pub struct PollRate {
    pub intervals: u64,
    pub micros: u64,
}

impl PollRate {
    /// A rate is measured over a span of positive length.
    pub open spec fn wf(self) -> bool {
        self.micros > 0
    }

    /// `self` is at most `other`, as exact rationals.
    pub open spec fn rate_le(self, other: PollRate) -> bool {
        self.intervals * other.micros <= other.intervals * self.micros
    }

    /// `self` is strictly below `other`, as exact rationals.
    pub open spec fn rate_lt(self, other: PollRate) -> bool {
        self.intervals * other.micros < other.intervals * self.micros
    }

    /// The rate is at least `hz` events per second.
    pub open spec fn reaches_hz(self, hz: int) -> bool {
        self.intervals * MICROS_PER_SECOND >= hz * self.micros
    }

    /// The zero rate: no intervals over one microsecond.
    pub open spec fn zero_spec() -> PollRate {
        PollRate { intervals: 0, micros: 1 }
    }

    /// The zero rate.
    pub fn zero() -> (r: PollRate)
        ensures
            r == PollRate::zero_spec(),
    {
        PollRate { intervals: 0, micros: 1 }
    }

    /// Whether the rate is above zero.
    pub fn is_positive(&self) -> (r: bool)
        ensures
            r == (self.intervals > 0),
    {
        self.intervals > 0
    }

    /// Whether `self` is strictly below `other`.
    pub fn is_below(&self, other: &PollRate) -> (r: bool)
        ensures
            r == self.rate_lt(*other),
    {
        proof {
            lemma_u64_product_fits(self.intervals, other.micros);
            lemma_u64_product_fits(other.intervals, self.micros);
        }
        (self.intervals as u128) * (other.micros as u128) < (other.intervals as u128) * (
        self.micros as u128)
    }

    /// Whether the rate is at least `hz` events per second.
    pub fn reaches(&self, hz: u64) -> (r: bool)
        ensures
            r == self.reaches_hz(hz as int),
    {
        proof {
            lemma_u64_product_fits(self.intervals, MICROS_PER_SECOND);
            lemma_u64_product_fits(hz, self.micros);
        }
        (self.intervals as u128) * (MICROS_PER_SECOND as u128) >= (hz as u128) * (
        self.micros as u128)
    }
}

/// The product of two `u64` values fits in a `u128`.
pub proof fn lemma_u64_product_fits(a: u64, b: u64)
    ensures
        0 <= a * b <= u128::MAX,
{
    assert(0 <= a * b <= u64::MAX * u64::MAX) by (nonlinear_arith)
        requires
            a <= u64::MAX,
            b <= u64::MAX,
    ;
}

/// Rates are totally ordered: one that is not below another is at least it.
pub proof fn lemma_rate_total(a: PollRate, b: PollRate)
    ensures
        !a.rate_lt(b) ==> b.rate_le(a),
        a.rate_le(a),
{
}

/// A rate at least as high as one that reaches a frequency reaches it too.
pub proof fn lemma_reaches_monotone(a: PollRate, b: PollRate, hz: int)
    requires
        a.wf(),
        b.wf(),
        a.rate_le(b),
        hz >= 0,
        a.reaches_hz(hz),
    ensures
        b.reaches_hz(hz),
{
    let (ai, am, bi, bm) = (a.intervals as int, a.micros as int, b.intervals as int, b.micros as int);
    assert(bi * 1_000_000 >= hz * bm) by (nonlinear_arith)
        requires
            am > 0,
            bm > 0,
            ai >= 0,
            hz >= 0,
            ai * bm <= bi * am,
            ai * 1_000_000 >= hz * am,
    {
        assert(ai * 1_000_000 * bm >= hz * am * bm);
        assert(bi * am * 1_000_000 >= ai * bm * 1_000_000);
        assert(bi * 1_000_000 * am >= hz * bm * am);
    }
}

/// The order on rates is transitive.
pub proof fn lemma_rate_le_trans(a: PollRate, b: PollRate, c: PollRate)
    requires
        a.wf(),
        b.wf(),
        c.wf(),
        a.rate_le(b),
        b.rate_le(c),
    ensures
        a.rate_le(c),
{
    let (ai, am, bi, bm, ci, cm) = (
        a.intervals as int,
        a.micros as int,
        b.intervals as int,
        b.micros as int,
        c.intervals as int,
        c.micros as int,
    );
    assert(ai * cm <= ci * am) by (nonlinear_arith)
        requires
            am > 0,
            bm > 0,
            cm > 0,
            ai >= 0,
            bi >= 0,
            ci >= 0,
            ai * bm <= bi * am,
            bi * cm <= ci * bm,
    {
        assert(ai * bm * cm <= bi * am * cm);
        assert(bi * cm * am <= ci * bm * am);
        assert(ai * cm * bm <= ci * am * bm);
    }
}

} // verus!
