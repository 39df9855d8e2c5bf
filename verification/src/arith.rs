use vstd::prelude::*;
use vstd::arithmetic::div_mod::{lemma_fundamental_div_mod, lemma_fundamental_div_mod_converse};

verus! {

/// Whether a mathematical integer fits in an `i64`.
pub open spec fn in_i64(x: int) -> bool {
    i64::MIN <= x <= i64::MAX
}

/// Floored division: with a positive divisor, `x / d` is the unique `q` with `q * d <= x < q * d + d`.
pub proof fn lemma_floor_div_unique(x: int, d: int, q: int)
    requires
        d > 0,
        q * d <= x < q * d + d,
    ensures
        x / d == q,
        x % d == x - q * d,
{
    lemma_fundamental_div_mod_converse(x, d, q, x - q * d);
}

/// The bounds that characterise floored division by a positive divisor.
pub proof fn lemma_floor_div_bounds(x: int, d: int)
    requires
        d > 0,
    ensures
        (x / d) * d <= x < (x / d) * d + d,
        x % d == x - (x / d) * d,
        0 <= x % d < d,
{
    lemma_fundamental_div_mod(x, d);
    assert(d * (x / d) == (x / d) * d) by (nonlinear_arith);
}

/// Floored division by a positive divisor is monotone in the dividend.
pub proof fn lemma_floor_div_monotone(x: int, y: int, d: int)
    requires
        d > 0,
        x <= y,
    ensures
        x / d <= y / d,
{
    lemma_floor_div_bounds(x, d);
    lemma_floor_div_bounds(y, d);
    let qx = x / d;
    let qy = y / d;
    if qx > qy {
        assert(qx * d >= qy * d + d) by (nonlinear_arith)
            requires
                qx > qy,
                d > 0,
        ;
    }
}

/// Adding a multiple of the divisor shifts the floored quotient by that multiple.
pub proof fn lemma_floor_div_add_multiple(x: int, k: int, d: int)
    requires
        d > 0,
    ensures
        (x + k * d) / d == x / d + k,
{
    lemma_floor_div_bounds(x, d);
    let q = x / d;
    assert((q + k) * d == q * d + k * d) by (nonlinear_arith);
    lemma_floor_div_unique(x + k * d, d, q + k);
}

/// A quotient of an `i64` by a divisor of at least two stays well inside the `i64` range.
pub proof fn lemma_quotient_of_i64_is_small(x: int, d: int)
    requires
        in_i64(x),
        d >= 2,
    ensures
        -0x4000_0000_0000_0000 <= x / d <= 0x3fff_ffff_ffff_ffff,
{
    lemma_floor_div_bounds(x, d);
    let q = x / d;
    if q > 0x3fff_ffff_ffff_ffff {
        assert(q * d >= 0x4000_0000_0000_0000 * 2) by (nonlinear_arith)
            requires
                q >= 0x4000_0000_0000_0000,
                d >= 2,
        ;
    }
    if q < -0x4000_0000_0000_0000 {
        assert(q * d + d <= -0x4000_0000_0000_0001 * d + d) by (nonlinear_arith)
            requires
                q <= -0x4000_0000_0000_0001,
                d >= 2,
        ;
        assert(-0x4000_0000_0000_0001 * d + d <= -0x4000_0000_0000_0000 * 2) by (nonlinear_arith)
            requires
                d >= 2,
        ;
    }
}

} // verus!
