use vstd::prelude::*;
use vstd::arithmetic::div_mod::{lemma_fundamental_div_mod, lemma_mod_multiples_basic};
use crate::model::{KernelError, RoundingMode, RoundingRule};

verus! {

pub open spec fn abs(v: int) -> int {
    if v >= 0 { v } else { -v }
}

pub open spec fn sign(v: int) -> int {
    if v >= 0 { 1 } else { -1 }
}

/// `v` with its magnitude cut down to a multiple of `inc`.
pub open spec fn toward_zero(v: int, inc: int) -> int {
    sign(v) * (abs(v) - abs(v) % inc)
}

/// `v` with its magnitude raised to a multiple of `inc` (unchanged on a multiple).
pub open spec fn away_from_zero(v: int, inc: int) -> int {
    if abs(v) % inc == 0 {
        v
    } else {
        sign(v) * (abs(v) - abs(v) % inc + inc)
    }
}

/// The value that `mode` with increment `inc` (> 0) rounds `v` to.
pub open spec fn rounded(v: int, mode: RoundingMode, inc: int) -> int {
    match mode {
        RoundingMode::Down => if v >= 0 { toward_zero(v, inc) } else { away_from_zero(v, inc) },
        RoundingMode::Up => if v >= 0 { away_from_zero(v, inc) } else { toward_zero(v, inc) },
        RoundingMode::Nearest => if abs(v) % inc >= inc / 2 {
            away_from_zero(v, inc)
        } else {
            toward_zero(v, inc)
        },
        RoundingMode::TowardZero => toward_zero(v, inc),
        RoundingMode::AwayFromZero => away_from_zero(v, inc),
    }
}

pub open spec fn fits_i64(v: int) -> bool {
    i64::MIN <= v <= i64::MAX
}

/// Whether rounding `v` under `rule` gives a value that an `i64` can hold
/// (trivially so where the rule itself is invalid).
pub open spec fn rounding_fits(v: int, rule: RoundingRule) -> bool {
    rule.increment_minor_units > 0 ==> fits_i64(
        rounded(v, rule.mode, rule.increment_minor_units as int),
    )
}

/// Rounds `value` under `rule`; a non-positive increment is rejected.
pub fn round_amount(value: i64, rule: &RoundingRule) -> (r: Result<i64, KernelError>)
    requires
        rounding_fits(value as int, *rule),
    ensures
        rule.increment_minor_units <= 0 <==> r == Err::<i64, KernelError>(
            KernelError::InvalidRoundingIncrement,
        ),
        rule.increment_minor_units > 0 ==> r == Ok::<i64, KernelError>(
            rounded(value as int, rule.mode, rule.increment_minor_units as int) as i64,
        ),
{
    let increment = rule.increment_minor_units;
    if increment <= 0 {
        return Err(KernelError::InvalidRoundingIncrement);
    }
    if increment == 1 {
        proof {
            assert(abs(value as int) % 1 == 0);
        }
        return Ok(value);
    }
    let v = value as i128;
    let inc = increment as i128;
    let a: i128 = if v >= 0 { v } else { -v };
    let m: i128 = a % inc;
    let s: i128 = if v >= 0 { 1 } else { -1 };
    proof {
        lemma_fundamental_div_mod(a as int, inc as int);
        assert(0 <= a / inc) by (nonlinear_arith)
            requires a >= 0, inc > 0;
        assert(inc * (a / inc) <= a) by (nonlinear_arith)
            requires a >= 0, inc > 0, 0 <= m < inc, a == inc * (a / inc) + m;
    }
    let down: i128 = s * (a - m);
    let up: i128 = if m == 0 { v } else { s * (a - m + inc) };
    let rounded_value: i128 = match rule.mode {
        RoundingMode::Down => if v >= 0 { down } else { up },
        RoundingMode::Up => if v >= 0 { up } else { down },
        RoundingMode::Nearest => if m >= inc / 2 { up } else { down },
        RoundingMode::TowardZero => down,
        RoundingMode::AwayFromZero => up,
    };
    Ok(rounded_value as i64)
}

/// Rounding twice gives what rounding once gives, in every mode.
pub proof fn lemma_round_idempotent(v: int, mode: RoundingMode, inc: int)
    requires
        inc > 0,
    ensures
        rounded(rounded(v, mode, inc), mode, inc) == rounded(v, mode, inc),
{
    let a = abs(v);
    let q = a / inc;
    lemma_fundamental_div_mod(a, inc);
    assert(q >= 0) by (nonlinear_arith)
        requires a >= 0, inc > 0, q == a / inc;
    lemma_mod_multiples_basic(q, inc);
    lemma_mod_multiples_basic(q + 1, inc);
    assert(q * inc == inc * q) by (nonlinear_arith);
    assert((q + 1) * inc == inc * q + inc) by (nonlinear_arith);
    assert(inc * q >= 0) by (nonlinear_arith)
        requires q >= 0, inc > 0;
    let r = rounded(v, mode, inc);
    assert(abs(r) % inc == 0);
    assert(toward_zero(r, inc) == r);
    assert(away_from_zero(r, inc) == r);
}

/// `Nearest` sends a value exactly halfway between two multiples away from zero.
pub proof fn lemma_nearest_tie_away_from_zero(v: int, inc: int)
    requires
        inc > 0,
        2 * (abs(v) % inc) == inc,
    ensures
        rounded(v, RoundingMode::Nearest, inc) == sign(v) * (abs(v) + inc / 2),
        abs(rounded(v, RoundingMode::Nearest, inc)) > abs(v),
{
}

/// `TowardZero` never increases the magnitude, and never flips the sign.
pub proof fn lemma_toward_zero_shrinks(v: int, inc: int)
    requires
        inc > 0,
    ensures
        abs(rounded(v, RoundingMode::TowardZero, inc)) <= abs(v),
        rounded(v, RoundingMode::TowardZero, inc) * v >= 0,
{
    let a = abs(v);
    lemma_fundamental_div_mod(a, inc);
    assert(inc * (a / inc) >= 0) by (nonlinear_arith)
        requires a >= 0, inc > 0;
    assert(rounded(v, RoundingMode::TowardZero, inc) * v >= 0) by (nonlinear_arith)
        requires
            v >= 0 ==> rounded(v, RoundingMode::TowardZero, inc) >= 0,
            v < 0 ==> rounded(v, RoundingMode::TowardZero, inc) <= 0;
}

} // verus!
