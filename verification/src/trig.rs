//! Angles counted in whole steps of a turn, and a rational sine on them.
//!
//! A turn has 63 000 steps, so that it divides evenly into degrees, into
//! quarters and into the 63 samples of the outline. The sine is the
//! classical rational approximation `16 p / (5 h^2 - 4 p)` with
//! `p = r (h - r)` on the first half turn `h`, mirrored on the second. It
//! is exact at every quarter turn, and the tests measure that it stays
//! within two thousandths of the true sine in between.

use crate::units::MILLION;
use vstd::prelude::*;

verus! {

/// The steps of one full turn.
pub const TURN: u32 = 63_000;

/// The steps of half a turn.
pub const HALF_TURN: u32 = 31_500;

/// The steps of a quarter turn.
pub const QUARTER_TURN: u32 = 15_750;

/// The sine, in parts per million, of `r` steps into the first half turn.
pub open spec fn arch(r: int) -> int
    recommends
        0 <= r <= HALF_TURN,
{
    let p = r * (HALF_TURN - r);
    (16 * p * MILLION) / (5 * HALF_TURN * HALF_TURN - 4 * p)
}

/// The sine of `angle` steps, in parts per million.
pub open spec fn sine(angle: int) -> int {
    let r = angle % (TURN as int);
    if r <= HALF_TURN {
        arch(r)
    } else {
        -arch(r - HALF_TURN)
    }
}

/// The cosine of `angle` steps, in parts per million: the sine a quarter
/// turn further on.
pub open spec fn cosine(angle: int) -> int {
    sine(angle + QUARTER_TURN)
}

/// On the first half turn the arch runs between zero and one.
pub proof fn lemma_arch_range(r: int)
    requires
        0 <= r <= HALF_TURN,
    ensures
        0 <= arch(r) <= MILLION,
        0 <= r * (HALF_TURN - r) <= 248_062_500,
{
    let h: int = HALF_TURN as int;
    let p: int = r * (h - r);
    assert(0 <= p) by (nonlinear_arith)
        requires
            p == r * (h - r),
            0 <= r <= h,
    ;
    assert(4 * p <= h * h) by (nonlinear_arith)
        requires
            p == r * (h - r),
    {
        assert((h - 2 * r) * (h - 2 * r) >= 0);
        assert((h - 2 * r) * (h - 2 * r) == h * h - 4 * (r * (h - r)));
    }
    assert(h * h == 992_250_000);
    let den: int = 5 * h * h - 4 * p;
    let num: int = 16 * p * MILLION;
    assert(5 * h * h == 5 * (h * h)) by (nonlinear_arith);
    assert(den >= 3_969_000_000);
    assert(num == MILLION * (16 * p)) by (nonlinear_arith)
        requires
            num == 16 * p * MILLION,
    ;
    assert(0 <= num <= MILLION * den);
    assert(0 <= num / den <= MILLION) by (nonlinear_arith)
        requires
            0 <= num <= MILLION * den,
            den > 0,
    ;
}

/// The sine never leaves the span from minus one to one.
pub proof fn lemma_sine_range(angle: int)
    ensures
        -MILLION <= sine(angle) <= MILLION,
{
    let r = angle % (TURN as int);
    if r <= HALF_TURN {
        lemma_arch_range(r);
    } else {
        lemma_arch_range(r - HALF_TURN);
    }
}

/// The sine is exact where the true sine is zero or one: it vanishes at
/// the start of a turn and at its half, is one at the first quarter and
/// minus one at the third.
pub proof fn lemma_sine_at_quarters()
    ensures
        sine(0) == 0,
        sine(QUARTER_TURN as int) == MILLION,
        sine(HALF_TURN as int) == 0,
        sine(3 * QUARTER_TURN) == -MILLION,
        cosine(0) == MILLION,
{
    let h: int = HALF_TURN as int;
    let q: int = QUARTER_TURN as int;
    assert(q * (h - q) == 248_062_500) by (nonlinear_arith)
        requires
            h == 31_500,
            q == 15_750,
    ;
    assert(16 * 248_062_500 * MILLION == 3_969_000_000_000_000);
    assert(5 * h * h - 4 * 248_062_500 == 3_969_000_000) by (nonlinear_arith)
        requires
            h == 31_500,
    ;
    assert(3_969_000_000_000_000int / 3_969_000_000int == 1_000_000);
    assert(arch(q) == MILLION);
    assert(0 * (h - 0) == 0);
    assert(h * (h - h) == 0) by (nonlinear_arith);
    assert(arch(0) == 0);
    assert(arch(h) == 0);
    assert((3 * QUARTER_TURN) % (TURN as int) == 47_250);
}

/// The sine of `angle`, in parts per million.
pub fn sin(angle: u32) -> (s: i32)
    ensures
        s == sine(angle as int),
        -MILLION <= s <= MILLION,
{
    let r: u32 = angle % TURN;
    proof {
        lemma_sine_range(angle as int);
        if r <= HALF_TURN {
            lemma_arch_range(r as int);
        } else {
            lemma_arch_range(r - HALF_TURN);
        }
    }
    if r <= HALF_TURN {
        arch_of(r)
    } else {
        let a: i32 = arch_of(r - HALF_TURN);
        -a
    }
}

/// The cosine of `angle`, in parts per million.
pub fn cos(angle: u32) -> (c: i32)
    ensures
        c == cosine(angle as int),
        -MILLION <= c <= MILLION,
{
    let r: u32 = angle % TURN;
    assert((r + QUARTER_TURN) % (TURN as int) == (angle + QUARTER_TURN) % (TURN as int)) by {
        vstd::arithmetic::div_mod::lemma_add_mod_noop(
            angle as int,
            QUARTER_TURN as int,
            TURN as int,
        );
        vstd::arithmetic::div_mod::lemma_add_mod_noop(r as int, QUARTER_TURN as int, TURN as int);
        vstd::arithmetic::div_mod::lemma_mod_twice(angle as int, TURN as int);
    }
    sin(r + QUARTER_TURN)
}

/// Evaluates the arch on the first half turn.
fn arch_of(r: u32) -> (a: i32)
    requires
        r <= HALF_TURN,
    ensures
        a == arch(r as int),
        0 <= a <= MILLION,
{
    proof {
        lemma_arch_range(r as int);
    }
    let h: u64 = HALF_TURN as u64;
    let r64: u64 = r as u64;
    let p: u64 = r64 * (h - r64);
    let num: u64 = 16 * p * 1_000_000;
    let den: u64 = 5 * h * h - 4 * p;
    let q: u64 = num / den;
    q as i32
}

} // verus!
