use crate::u256::{u256_bound, U256};
use vstd::prelude::*;

verus! {

/// Blocks between two retargets.
pub const DIFFICULTY_UPDATE_INTERVAL: u64 = 50;

/// The intended number of seconds between two blocks.
pub const IDEAL_BLOCK_TIME: u64 = 10;

/// The most value a block may issue by default: fifty coins of a hundred
/// million units.
pub const BLOCK_REWARD: u64 = 5_000_000_000;

/// The new target: the old one scaled by how long the window took against
/// how long it should have taken, held within a factor of four of the old
/// target, and never easier than `max`.
#[verifier::opaque]
pub open spec fn retarget_value(old: nat, span: nat, expected: nat, max: nat) -> nat {
    let raw: int = (old * span) as int / expected as int;
    let low: int = old as int / 4;
    let high: int = old as int * 4;
    let clamped: int = if raw < low {
        low
    } else if raw > high {
        high
    } else {
        raw
    };
    if clamped > max {
        max
    } else {
        clamped as nat
    }
}

/// When a window took less time than it should have, the new target is no
/// easier than the old one and no harder than a quarter of it (unless the
/// easiest allowed target is itself below that).
pub proof fn lemma_fast_window_lowers_target(old: nat, span: nat, expected: nat, max: nat)
    requires
        0 < expected,
        span < expected,
        old <= max,
    ensures
        retarget_value(old, span, expected, max) <= old,
        retarget_value(old, span, expected, max) >= old / 4,
{
    reveal(retarget_value);
    assert(old * span <= old * expected) by (nonlinear_arith)
        requires span < expected;
    vstd::arithmetic::div_mod::lemma_div_is_ordered((old * span) as int, (old * expected) as int, expected as int);
    vstd::arithmetic::div_mod::lemma_div_multiples_vanish(old as int, expected as int);
    assert((old * expected) as int / expected as int == old) by (nonlinear_arith)
        requires (expected * old) / expected == old, expected > 0;
}

/// Compares two 320-bit numbers, each a limb above 256 bits.
fn wide_le(a_hi: u64, a: &U256, b_hi: u64, b: &U256) -> (r: bool)
    ensures
        r == (a_hi * u256_bound() + a.value() <= b_hi * u256_bound() + b.value()),
{
    proof {
        crate::u256::lemma_value_bound(*a);
        crate::u256::lemma_value_bound(*b);
        lemma_wide_order(a_hi as int, a.value() as int, b_hi as int, b.value() as int, u256_bound());
    }
    if a_hi != b_hi {
        a_hi < b_hi
    } else {
        a.le(b)
    }
}

proof fn lemma_wide_order(ah: int, a: int, bh: int, b: int, bound: int)
    requires
        0 <= a < bound,
        0 <= b < bound,
    ensures
        ah < bh ==> ah * bound + a < bh * bound + b,
        bh < ah ==> bh * bound + b < ah * bound + a,
{
    if ah < bh {
        assert(ah * bound + bound <= bh * bound) by (nonlinear_arith)
            requires ah < bh, bound > 0;
    }
    if bh < ah {
        assert(bh * bound + bound <= ah * bound) by (nonlinear_arith)
            requires bh < ah, bound > 0;
    }
}

proof fn lemma_split_quotient(hi: int, lo: int, e: int, bound: int)
    requires
        0 < e,
        0 <= hi,
        0 <= lo,
        0 < bound,
    ensures
        (hi * bound + lo) / e == (hi / e) * bound + ((hi % e) * bound + lo) / e,
{
    vstd::arithmetic::div_mod::lemma_fundamental_div_mod(hi, e);
    let q = hi / e;
    let rest = (hi % e) * bound + lo;
    assert(hi * bound + lo == (q * bound) * e + rest) by (nonlinear_arith)
        requires hi == e * q + hi % e, rest == (hi % e) * bound + lo;
    vstd::arithmetic::div_mod::lemma_mod_pos_bound(hi, e);
    assert(rest >= 0) by (nonlinear_arith) requires hi % e >= 0, bound > 0, lo >= 0, rest == (hi % e) * bound + lo;
    vstd::arithmetic::div_mod::lemma_fundamental_div_mod(rest, e);
    vstd::arithmetic::div_mod::lemma_mod_pos_bound(rest, e);
    let q2 = rest / e;
    assert(hi * bound + lo == (q * bound + q2) * e + rest % e) by (nonlinear_arith)
        requires hi * bound + lo == (q * bound) * e + rest, rest == e * q2 + rest % e;
    vstd::arithmetic::div_mod::lemma_fundamental_div_mod_converse(hi * bound + lo, e, q * bound + q2, rest % e);
}

/// Recomputes a target from the time a window of blocks took (`span`) and
/// the time it should have taken (`expected`).
pub fn retarget(old: U256, span: u64, expected: u64, max: U256) -> (r: U256)
    requires
        expected > 0,
    ensures
        r.value() == retarget_value(old.value(), span as nat, expected as nat, max.value()),
{
    proof {
        reveal(retarget_value);
    }
    let ghost bound = u256_bound();
    let (plo, pc) = old.mul_u64(span);
    let q_hi = pc / expected;
    let rem = pc % expected;
    let q_lo = plo.div_wide(rem, expected);
    proof {
        lemma_split_quotient(pc as int, plo.value() as int, expected as int, bound);
        assert(old.value() * span == pc * bound + plo.value());
    }
    let low = old.div_wide(0, 4);
    let (h_lo, h_c) = old.mul_u64(4);
    let zero: u64 = 0;
    let (c_hi, c_lo) = if !wide_le(zero, &low, q_hi, &q_lo) {
        (zero, low)
    } else if !wide_le(q_hi, &q_lo, h_c, &h_lo) {
        (h_c, h_lo)
    } else {
        (q_hi, q_lo)
    };
    proof {
        crate::u256::lemma_value_bound(max);
        crate::u256::lemma_value_bound(c_lo);
    }
    if wide_le(c_hi, &c_lo, zero, &max) {
        proof {
            if c_hi > 0 {
                assert(c_hi * bound >= bound) by (nonlinear_arith) requires c_hi >= 1, bound > 0;
            }
        }
        c_lo
    } else {
        max
    }
}

} // verus!
