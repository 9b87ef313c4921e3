use vstd::prelude::*;

verus! {

/// Number of fixed-point ticks in one unit: of length, of a ray's
/// parameter, of a colour's intensity.
pub const TICKS_PER_UNIT: i64 = 1_000_000_000;

/// Two scalars closer than this many ticks are treated as the same value.
pub const EPSILON: i64 = 10_000;

/// The distance between two scalars, as a mathematical integer.
pub open spec fn distance(a: i64, b: i64) -> int {
    if a >= b {
        a - b
    } else {
        b - a
    }
}

/// Whether two scalars are the same up to `EPSILON`.
pub open spec fn close(a: i64, b: i64) -> bool {
    distance(a, b) < EPSILON
}

/// Decides whether two scalars are the same up to `EPSILON`.
pub fn scalar_eq(a: i64, b: i64) -> (r: bool)
    ensures
        r == close(a, b),
{
    if a >= b {
        match a.checked_sub(b) {
            Some(d) => d < EPSILON,
            None => false,
        }
    } else {
        match b.checked_sub(a) {
            Some(d) => d < EPSILON,
            None => false,
        }
    }
}

/// The absolute value of a scalar, as a mathematical integer.
pub open spec fn abs_of(a: int) -> int {
    if a >= 0 {
        a
    } else {
        -a
    }
}

/// The absolute value of a scalar.
pub fn magnitude(a: i64) -> (r: u64)
    ensures
        r == abs_of(a as int),
{
    if a >= 0 {
        a as u64
    } else if a == i64::MIN {
        9_223_372_036_854_775_808u64
    } else {
        (-a) as u64
    }
}

/// Closeness is reflexive and symmetric.
pub proof fn lemma_close_reflexive_symmetric(a: i64, b: i64)
    ensures
        close(a, a),
        close(a, b) == close(b, a),
{
}

} // verus!
