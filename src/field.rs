//! Arithmetic in the prime field of order `2^31 - 2^27 + 1`.
//!
//! A field element is held as its canonical representative, a `u32` below
//! the modulus; every operation returns a canonical representative again.
use vstd::prelude::*;
use vstd::arithmetic::div_mod::{lemma_mod_add_multiples_vanish, lemma_mul_mod_noop, lemma_mul_mod_noop_left};

verus! {

/// The field's modulus.
pub const P: u32 = 2013265921;

/// The canonical representative of the integer `x` in the field.
pub open spec fn fe(x: int) -> u32 {
    (x % (P as int)) as u32
}

/// `x` is the canonical representative of a field element.
pub open spec fn is_fe(x: u32) -> bool {
    x < P
}

/// `x` raised to the S-box exponent seven, in the field.
pub open spec fn pow7(x: u32) -> u32 {
    fe(x * x * x * x * x * x * x)
}

pub proof fn lemma_fe_bound(x: int)
    ensures
        0 <= x % (P as int) < P,
        fe(x) as int == x % (P as int),
{
}

/// Field addition.
pub fn fadd(a: u32, b: u32) -> (r: u32)
    requires
        is_fe(a),
        is_fe(b),
    ensures
        r == fe(a + b),
        is_fe(r),
{
    ((a as u64 + b as u64) % (P as u64)) as u32
}

/// Field subtraction.
pub fn fsub(a: u32, b: u32) -> (r: u32)
    requires
        is_fe(a),
        is_fe(b),
    ensures
        r == fe(a - b),
        is_fe(r),
{
    proof {
        lemma_mod_add_multiples_vanish(a - b, P as int);
    }
    ((a as u64 + P as u64 - b as u64) % (P as u64)) as u32
}

/// Field multiplication.
pub fn fmul(a: u32, b: u32) -> (r: u32)
    requires
        is_fe(a),
        is_fe(b),
    ensures
        r == fe(a * b),
        is_fe(r),
{
    assert((a as u64) * (b as u64) < 0x4000_0000_0000_0000) by (nonlinear_arith)
        requires
            a < P,
            b < P,
    ;
    ((a as u64 * b as u64) % (P as u64)) as u32
}

/// Field doubling.
pub fn fdouble(a: u32) -> (r: u32)
    requires
        is_fe(a),
    ensures
        r == fe(2 * a),
        is_fe(r),
{
    fadd(a, a)
}

/// `x` raised to the seventh power in the field.
pub fn exp7(x: u32) -> (r: u32)
    requires
        is_fe(x),
    ensures
        r == pow7(x),
        is_fe(r),
{
    let ghost p = P as int;
    let ghost xi = x as int;
    let x2 = fmul(x, x);
    let x3 = fmul(x2, x);
    proof {
        lemma_mul_mod_noop_left(xi * xi, xi, p);
    }
    let x6 = fmul(x3, x3);
    proof {
        lemma_mul_mod_noop(xi * xi * xi, xi * xi * xi, p);
        assert((xi * xi * xi) * (xi * xi * xi) == xi * xi * xi * xi * xi * xi) by (nonlinear_arith);
    }
    let x7 = fmul(x6, x);
    proof {
        lemma_mul_mod_noop_left(xi * xi * xi * xi * xi * xi, xi, p);
    }
    x7
}

} // verus!
