//! Single-precision arithmetic carried out on integers.
//!
//! A number is held as a count of units of `2^-31`. Every single-precision
//! value whose magnitude is at least `2^-8` is a whole number of such units, so
//! sums, products and quotients of colour channels can be rounded to single
//! precision without leaving the integers.
use vstd::prelude::*;

verus! {

/// The number one, in units of `2^-31`.
pub const ONE: i128 = 0x8000_0000;

/// One more than the largest significand of a single-precision number.
pub const SIGNIFICAND_LIMIT: u128 = 0x100_0000;

/// The quotient `num / den` rounded to the nearest whole number, ties to even.
pub open spec fn half_even(num: nat, den: nat) -> nat {
    let q = num / den;
    let r = num % den;
    if 2 * r > den || (2 * r == den && q % 2 == 1) {
        q + 1
    } else {
        q
    }
}

/// The quotient `num / den` rounded to 24 significant bits, ties to even: the
/// step between neighbouring results doubles until the result has at most 24
/// bits.
pub open spec fn nearest(num: nat, den: nat) -> nat
    decreases num - den,
{
    if den == 0 || num < den * 0x100_0000 {
        half_even(num, den)
    } else {
        2 * nearest(num, 2 * den)
    }
}

/// The quotient `num / den` of a number of either sign, rounded to single
/// precision.
pub open spec fn rounded(num: int, den: int) -> int {
    if num < 0 {
        -(nearest((-num) as nat, den as nat) as int)
    } else {
        nearest(num as nat, den as nat) as int
    }
}

/// A rounded quotient exceeds the exact one by at most its own size and one.
pub proof fn lemma_nearest_bound(num: nat, den: nat)
    requires
        den > 0,
    ensures
        nearest(num, den) <= 2 * num + 1,
    decreases num - den,
{
    if num < den * 0x100_0000 {
        assert(num / den <= num) by (nonlinear_arith)
            requires
                den > 0,
        ;
    } else {
        lemma_nearest_scaled(num, den);
        assert(nearest(num, den) <= 2 * num) by (nonlinear_arith)
            requires
                nearest(num, den) * den <= 2 * num,
                den > 0,
        ;
    }
}

/// Once the result needs more than 24 bits, rounding it at most doubles it.
proof fn lemma_nearest_scaled(num: nat, den: nat)
    requires
        den > 0,
        num >= den * 0x100_0000,
    ensures
        nearest(num, den) * den <= 2 * num,
    decreases num - den,
{
    let half = nearest(num, 2 * den);
    if num < 2 * den * 0x100_0000 {
        let d = 2 * den;
        assert(half * d <= num + d) by (nonlinear_arith)
            requires
                d > 0,
                half <= num / d + 1,
        {
            assert((num / d) * d <= num);
        }
    } else {
        lemma_nearest_scaled(num, 2 * den);
    }
    assert((2 * half) * den == half * (2 * den)) by (nonlinear_arith);
}

fn nearest_exec(num: u128, den: u128) -> (r: u128)
    requires
        0 < den,
        num <= 0xffff_ffff_ffff_ffff_ffff_ffff,
    ensures
        r == nearest(num as nat, den as nat),
        r <= 2 * num + 1,
    decreases num - den,
{
    proof {
        lemma_nearest_bound(num as nat, den as nat);
    }
    if num / SIGNIFICAND_LIMIT < den {
        let q = num / den;
        let r = num % den;
        let gap = den - r;
        if r > gap || (r == gap && q % 2 == 1) {
            assert(q <= num) by (nonlinear_arith)
                requires
                    q == num / den,
                    den > 0,
            ;
            q + 1
        } else {
            q
        }
    } else {
        proof {
            lemma_nearest_bound(num as nat, (2 * den) as nat);
        }
        2 * nearest_exec(num, 2 * den)
    }
}

/// Rounds `num / den` to single precision.
pub fn round(num: i128, den: i128) -> (r: i128)
    requires
        0 < den,
        -0xffff_ffff_ffff_ffff_ffff_ffff <= num <= 0xffff_ffff_ffff_ffff_ffff_ffff,
    ensures
        r == rounded(num as int, den as int),
        num >= 0 ==> 0 <= r <= 2 * num + 1,
        num < 0 ==> 2 * num - 1 <= r <= 0,
{
    if num < 0 {
        let r = nearest_exec((-num) as u128, den as u128);
        -(r as i128)
    } else {
        nearest_exec(num as u128, den as u128) as i128
    }
}

// ---- what rounding guarantees ----

/// Whether a number can be held in single precision: at most 24 significant
/// bits remain once its trailing zeros are taken off.
pub open spec fn is_single(x: nat) -> bool
    decreases x,
{
    x <= 0x100_0000 || (x % 2 == 0 && is_single(x / 2))
}

/// The distance between two numbers.
pub open spec fn gap(a: int, b: int) -> int {
    if a <= b {
        b - a
    } else {
        a - b
    }
}

/// Rounding always gives a single-precision number.
pub proof fn law_rounding_gives_a_single(num: nat, den: nat)
    requires
        den > 0,
    ensures
        is_single(nearest(num, den)),
    decreases num - den,
{
    if num < den * 0x100_0000 {
        lemma_small_quotient(num, den);
    } else {
        law_rounding_gives_a_single(num, 2 * den);
        assert((2 * nearest(num, 2 * den)) / 2 == nearest(num, 2 * den));
    }
}

/// A quotient below the limit rounds to at most the limit.
proof fn lemma_small_quotient(num: nat, den: nat)
    requires
        den > 0,
        num < den * 0x100_0000,
    ensures
        half_even(num, den) <= 0x100_0000,
{
    assert(num / den < 0x100_0000) by (nonlinear_arith)
        requires
            den > 0,
            num < den * 0x100_0000,
    ;
}

/// No single-precision number lies nearer to a quotient than the one that it is
/// rounded to.
pub proof fn law_rounding_is_nearest(num: nat, den: nat, x: nat)
    requires
        den > 0,
        is_single(x),
    ensures
        gap((nearest(num, den) * den) as int, num as int) <= gap((x * den) as int, num as int),
    decreases num - den,
{
    if num < den * 0x100_0000 {
        let q = num / den;
        let r = num % den;
        vstd::arithmetic::div_mod::lemma_fundamental_div_mod(num as int, den as int);
        assert(q * den == den * q) by (nonlinear_arith);
        assert((q + 1) * den == q * den + den) by (nonlinear_arith);
        if x <= q {
            assert(x * den <= q * den) by (nonlinear_arith)
                requires
                    x <= q,
            ;
        } else {
            assert(x * den >= (q + 1) * den) by (nonlinear_arith)
                requires
                    x >= q + 1,
            ;
        }
    } else {
        let n = nearest(num, 2 * den);
        assert((2 * n) * den == n * (2 * den)) by (nonlinear_arith);
        if x % 2 == 0 {
            let y = x / 2;
            law_rounding_is_nearest(num, 2 * den, y);
            assert(x * den == y * (2 * den)) by (nonlinear_arith)
                requires
                    x == 2 * y,
            ;
        } else {
            law_rounding_is_nearest(num, 2 * den, 0x80_0000);
            assert(x * den <= 0x100_0000 * den) by (nonlinear_arith)
                requires
                    x <= 0x100_0000,
            ;
        }
    }
}

proof fn lemma_nearest_reaches_limit(num: nat, den: nat)
    requires
        den > 0,
        num >= den * 0x100_0000,
    ensures
        nearest(num, den) >= 0x100_0000,
    decreases num - den,
{
    let half = nearest(num, 2 * den);
    assert(nearest(num, den) == 2 * half);
    if num < 2 * den * 0x100_0000 {
        assert(num / (2 * den) >= 0x80_0000) by (nonlinear_arith)
            requires
                den > 0,
                num >= den * 0x100_0000,
        ;
    } else {
        lemma_nearest_reaches_limit(num, 2 * den);
    }
}

/// Rounding keeps the order of quotients.
pub proof fn law_rounding_is_monotone(a: nat, b: nat, den: nat)
    requires
        den > 0,
        a <= b,
    ensures
        nearest(a, den) <= nearest(b, den),
    decreases b - den,
{
    if b < den * 0x100_0000 {
        vstd::arithmetic::div_mod::lemma_fundamental_div_mod(a as int, den as int);
        vstd::arithmetic::div_mod::lemma_fundamental_div_mod(b as int, den as int);
        vstd::arithmetic::div_mod::lemma_div_is_ordered(a as int, b as int, den as int);
    } else if a < den * 0x100_0000 {
        lemma_small_quotient(a, den);
        lemma_nearest_reaches_limit(b, den);
    } else {
        law_rounding_is_monotone(a, b, 2 * den);
    }
}

/// A quotient that a single-precision number bounds stays within that bound
/// when it is rounded.
pub proof fn lemma_rounded_within(num: int, den: int, x: nat)
    requires
        den > 0,
        is_single(x),
        -(x * den) <= num <= x * den,
    ensures
        -x <= rounded(num, den) <= x,
        num >= 0 ==> rounded(num, den) >= 0,
        num <= 0 ==> rounded(num, den) <= 0,
{
    let d = den as nat;
    let top = x * d;
    let a = gap(num, 0) as nat;
    law_rounding_is_monotone(a, top, d);
    law_rounding_is_nearest(top, d, x);
    assert(nearest(top, d) == x) by (nonlinear_arith)
        requires
            nearest(top, d) * d == x * d,
            d > 0,
    ;
    if num == 0 {
        law_rounding_is_nearest(0, d, 0);
        assert(0 * d == 0);
        assert(nearest(0, d) == 0) by (nonlinear_arith)
            requires
                nearest(0, d) * d == 0,
                d > 0,
        ;
    }
}

/// A quotient halfway between two numbers of 24 bits is rounded to the even one, and one that
/// needs more bits is rounded at twice the step.
pub proof fn law_ties_go_to_even(num: nat, den: nat)
    requires
        den > 0,
    ensures
        num < den * 0x100_0000 && 2 * (num % den) == den ==> nearest(num, den) % 2 == 0,
        num >= den * 0x100_0000 ==> nearest(num, den) == 2 * nearest(num, 2 * den),
{
}

/// Rounding is the same for numbers of either sign.
pub proof fn law_rounding_is_odd(num: int, den: int)
    requires
        den > 0,
    ensures
        rounded(-num, den) == -rounded(num, den),
        num >= 0 ==> rounded(num, den) == nearest(num as nat, den as nat),
{
    if num == 0 {
        law_rounding_is_nearest(0, den as nat, 0);
        assert(nearest(0, den as nat) == 0) by (nonlinear_arith)
            requires
                nearest(0, den as nat) * (den as nat) <= 0,
                den > 0,
        ;
    }
}

} // verus!
