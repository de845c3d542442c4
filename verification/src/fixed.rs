//! Fixed-point arithmetic for complex-plane coordinates.
//!
//! A coordinate on the real or imaginary axis is stored as an `i64` holding
//! `SCALE` units per real unit, so the value `v` stands for the real number
//! `v / SCALE`. All of the escape-time computation is exact integer
//! arithmetic over this representation.

use vstd::prelude::*;

verus! {

/// Number of fixed-point units per real unit: an `i64` coordinate `v`
/// stands for the real number `v / SCALE`.
pub const SCALE: i64 = 0x100_0000;

/// The squared-magnitude bailout threshold (the real value `4.0`) in
/// fixed-point units.
pub const BAILOUT: i64 = 4 * SCALE;

/// Largest magnitude admitted for a complex-plane coordinate, in fixed-point
/// units (the real value `65536.0`). Keeping every point inside this range is
/// what lets the squared terms of the escape recurrence stay inside `i64`.
pub const COORD_LIMIT: i64 = 0x100_0000_0000;

/// Largest magnitude `fixed_square` accepts; every intermediate value of the
/// escape recurrence over in-range points stays within it.
pub const SQUARE_INPUT_LIMIT: i64 = 0x400_0000_0000;

/// Upper bound on what `fixed_square` returns for in-range inputs:
/// `SQUARE_INPUT_LIMIT * SQUARE_INPUT_LIMIT / SCALE`.
pub const SQUARE_LIMIT: i64 = 0x1000_0000_0000_0000;

/// The fixed-point square: the representation of `(v / SCALE)^2`, rounded
/// down, is `v * v / SCALE`.
pub open spec fn fx_square(v: int) -> int {
    (v * v) / (SCALE as int)
}

/// Fixed-point squaring, exact up to the representation's rounding.
pub fn fixed_square(v: i64) -> (r: i64)
    requires
        -SQUARE_INPUT_LIMIT <= v <= SQUARE_INPUT_LIMIT,
    ensures
        r == fx_square(v as int),
        0 <= r <= SQUARE_LIMIT,
{
    let a: i64 = if v < 0 {
        -v
    } else {
        v
    };
    assert((a as int) * (a as int) == (v as int) * (v as int)) by (nonlinear_arith)
        requires
            a == v || a == -v,
    ;
    assert((a as int) * (a as int) <= SQUARE_INPUT_LIMIT * SQUARE_INPUT_LIMIT)
        by (nonlinear_arith)
        requires
            0 <= a <= SQUARE_INPUT_LIMIT,
    ;
    let p: u128 = (a as u128) * (a as u128);
    let q: u128 = p / (SCALE as u128);
    proof {
        vstd::arithmetic::div_mod::lemma_div_pos_is_pos(p as int, SCALE as int);
        vstd::arithmetic::div_mod::lemma_div_is_ordered(
            p as int,
            SQUARE_INPUT_LIMIT * SQUARE_INPUT_LIMIT,
            SCALE as int,
        );
        assert((SQUARE_INPUT_LIMIT * SQUARE_INPUT_LIMIT) / (SCALE as int) == SQUARE_LIMIT);
    }
    q as i64
}

/// The floor of the binary logarithm (of the raw fixed-point units); zero
/// for values below two.
pub open spec fn fx_log2(v: int) -> nat
    decreases v,
{
    if v < 2 {
        0
    } else {
        1 + fx_log2(v / 2)
    }
}

/// `fx_log2` stays below any exponent whose power of two bounds the value.
proof fn lemma_fx_log2_below(v: int, b: nat)
    requires
        0 <= v < vstd::arithmetic::power2::pow2(b),
        1 <= b,
    ensures
        fx_log2(v) < b,
    decreases b,
{
    if v >= 2 {
        vstd::arithmetic::power2::lemma_pow2_unfold(b);
        if b == 1 {
            vstd::arithmetic::power2::lemma2_to64();
        } else {
            lemma_fx_log2_below(v / 2, (b - 1) as nat);
        }
    }
}

/// The floor of the binary logarithm of a positive value, by repeated
/// halving.
pub fn fixed_log2(v: i64) -> (r: u32)
    requires
        1 <= v,
    ensures
        r == fx_log2(v as int),
{
    proof {
        vstd::arithmetic::power2::lemma2_to64();
        vstd::arithmetic::power2::lemma2_to64_rest();
        lemma_fx_log2_below(v as int, 63);
    }
    let mut t: u64 = v as u64;
    let mut r: u32 = 0;
    while t >= 2
        invariant
            1 <= t,
            r + fx_log2(t as int) == fx_log2(v as int),
            fx_log2(v as int) < 63,
        decreases t,
    {
        proof {
            assert(fx_log2(t as int) == 1 + fx_log2((t as int) / 2));
        }
        t = t / 2;
        r = r + 1;
    }
    r
}

} // verus!
