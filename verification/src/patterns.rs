use vstd::prelude::*;
use crate::scalar::abs_of;
use crate::scalar::magnitude;
use crate::scalar::TICKS_PER_UNIT;

verus! {

/// The kinds of surface pattern.
#[derive(Clone, Copy, Debug, PartialEq, Eq, Structural)]
pub enum Pattern {
    StripePattern,
    RingPattern,
    GradientPattern,
    CheckeredPattern,
    TestPattern,
}

/// What a pattern shows at a point, in terms of its two colours.
#[derive(Clone, Copy, Debug, PartialEq, Eq, Structural)]
pub enum Sample {
    /// The first colour.
    First,
    /// The second colour.
    Second,
    /// A colour between the two: the first colour and this fraction, in
    /// ticks, of the way to the second.
    Between(i64),
    /// The colour whose three channels are the point's coordinates.
    Coordinates,
}

/// The largest whole number of units that is not above `x`.
pub open spec fn floor_of(x: i64) -> int {
    (x as int) / (TICKS_PER_UNIT as int)
}

/// What is left of `x` above `floor_of(x)`, in ticks.
pub open spec fn fraction_of(x: i64) -> int {
    (x as int) % (TICKS_PER_UNIT as int)
}

/// Whether `n` is the whole number of units in the distance of the point
/// `(x, z)` from the origin.
pub open spec fn is_ring(x: i64, z: i64, n: int) -> bool {
    &&& n >= 0
    &&& (n * TICKS_PER_UNIT) * (n * TICKS_PER_UNIT) <= x * x + z * z
    &&& x * x + z * z < ((n + 1) * TICKS_PER_UNIT) * ((n + 1) * TICKS_PER_UNIT)
}

/// The first colour where `n` is even, the second where it is odd.
pub open spec fn alternate(n: int) -> Sample {
    if n % 2 == 0 {
        Sample::First
    } else {
        Sample::Second
    }
}

/// What a pattern of the given kind shows at the point `(x, y, z)`, where
/// `ring` is the ring that the point lies in.
pub open spec fn sample_of(kind: Pattern, x: i64, y: i64, z: i64, ring: int) -> Sample {
    match kind {
        Pattern::StripePattern => alternate(floor_of(x)),
        Pattern::RingPattern => alternate(ring),
        Pattern::GradientPattern => Sample::Between(fraction_of(x) as i64),
        Pattern::CheckeredPattern => alternate(floor_of(x) + floor_of(y) + floor_of(z)),
        Pattern::TestPattern => Sample::Coordinates,
    }
}

/// The ring that the point `(x, z)` lies in.
pub open spec fn ring_of(x: i64, z: i64) -> int {
    choose|n: int| is_ring(x, z, n)
}

/// What a pattern of the given kind shows at the point `(x, y, z)` of its
/// own space.
pub open spec fn sample_at(kind: Pattern, x: i64, y: i64, z: i64) -> Sample {
    sample_of(kind, x, y, z, ring_of(x, z))
}

/// A point lies in one ring only.
pub proof fn lemma_ring_unique(x: i64, z: i64, n: int, m: int)
    requires
        is_ring(x, z, n),
        is_ring(x, z, m),
    ensures
        n == m,
{
    let t = TICKS_PER_UNIT as int;
    if n < m {
        assert(((n + 1) * t) * ((n + 1) * t) <= (m * t) * (m * t)) by (nonlinear_arith)
            requires
                0 <= n + 1 <= m,
                t > 0,
        ;
    } else if m < n {
        assert(((m + 1) * t) * ((m + 1) * t) <= (n * t) * (n * t)) by (nonlinear_arith)
            requires
                0 <= m + 1 <= n,
                t > 0,
        ;
    }
}

/// The largest whole number of units that is not above `x`.
pub fn floor_units(x: i64) -> (r: i64)
    ensures
        r == floor_of(x),
{
    if x >= 0 {
        x / TICKS_PER_UNIT
    } else {
        let m: u64 = magnitude(x);
        let q: u64 = (m + 999_999_999) / 1_000_000_000;
        -(q as i64)
    }
}

/// What is left of `x` above its floor, in ticks: at least zero and less
/// than one unit.
pub fn fraction(x: i64) -> (r: i64)
    ensures
        r == fraction_of(x),
        0 <= r < TICKS_PER_UNIT,
{
    if x >= 0 {
        x % TICKS_PER_UNIT
    } else {
        let rest: u64 = magnitude(x) % 1_000_000_000;
        if rest == 0 {
            0
        } else {
            TICKS_PER_UNIT - (rest as i64)
        }
    }
}

/// The ring that the point `(x, z)` lies in: the whole number of units in
/// its distance from the origin.
pub fn ring_index(x: i64, z: i64) -> (r: u64)
    ensures
        is_ring(x, z, r as int),
        r == ring_of(x, z),
{
    let mx: u128 = magnitude(x) as u128;
    let mz: u128 = magnitude(z) as u128;
    assert(mx * mx <= 0x4000_0000_0000_0000_0000_0000_0000_0000u128) by (nonlinear_arith)
        requires
            mx <= 0x8000_0000_0000_0000u128,
    ;
    assert(mz * mz <= 0x4000_0000_0000_0000_0000_0000_0000_0000u128) by (nonlinear_arith)
        requires
            mz <= 0x8000_0000_0000_0000u128,
    ;
    assert(mx * mx == x * x) by (nonlinear_arith)
        requires
            mx == abs_of(x as int),
    ;
    assert(mz * mz == z * z) by (nonlinear_arith)
        requires
            mz == abs_of(z as int),
    ;
    let v: u128 = mx * mx + mz * mz;
    let unit: u128 = 1_000_000_000;
    let mut lo: u128 = 0;
    let mut hi: u128 = 0x4_0000_0000;
    assert((hi * unit) * (hi * unit) > v) by (nonlinear_arith)
        requires
            hi == 0x4_0000_0000u128,
            unit == 1_000_000_000u128,
            v <= 0x8000_0000_0000_0000_0000_0000_0000_0000u128,
    ;
    assert((lo * unit) * (lo * unit) == 0) by (nonlinear_arith)
        requires
            lo == 0,
    ;
    while hi - lo > 1
        invariant
            0 <= lo < hi <= 0x4_0000_0000,
            unit == 1_000_000_000,
            (lo * unit) * (lo * unit) <= v,
            v < (hi * unit) * (hi * unit),
        decreases hi - lo,
    {
        let mid: u128 = lo + (hi - lo) / 2;
        let side: u128 = mid * unit;
        assert(side * side <= 0xffff_ffff_ffff_ffff_ffff_ffff_ffff_ffffu128) by (nonlinear_arith)
            requires
                side <= 0x4_0000_0000 * 1_000_000_000,
        ;
        if side * side <= v {
            lo = mid;
        } else {
            hi = mid;
        }
    }
    assert(hi == lo + 1);
    proof {
        assert(is_ring(x, z, lo as int));
        lemma_ring_unique(x, z, ring_of(x, z), lo as int);
    }
    lo as u64
}

/// What a pattern of the given kind shows at the point `(x, y, z)` of its
/// own space. Stripes alternate with the whole units of `x`, rings with
/// the whole units of the distance from the origin in the plane of `x` and
/// `z`, checkers with the sum of the whole units of the three coordinates;
/// a gradient runs from the first colour to the second within each unit of
/// `x`.
pub fn pattern_at(kind: Pattern, x: i64, y: i64, z: i64) -> (r: Sample)
    ensures
        r == sample_at(kind, x, y, z),
{
    match kind {
        Pattern::StripePattern => pick(is_even(floor_units(x))),
        Pattern::RingPattern => {
            let n = ring_index(x, z);
            proof {
                lemma_ring_unique(x, z, ring_of(x, z), n as int);
            }
            pick(n % 2 == 0)
        },
        Pattern::GradientPattern => Sample::Between(fraction(x)),
        Pattern::CheckeredPattern => {
            let sum: i64 = floor_units(x) + floor_units(y) + floor_units(z);
            pick(is_even(sum))
        },
        Pattern::TestPattern => Sample::Coordinates,
    }
}

fn is_even(n: i64) -> (r: bool)
    ensures
        r <==> (n as int) % 2 == 0,
{
    magnitude(n) % 2 == 0
}

fn pick(first: bool) -> (r: Sample)
    ensures
        r == if first {
            Sample::First
        } else {
            Sample::Second
        },
{
    if first {
        Sample::First
    } else {
        Sample::Second
    }
}

} // verus!
