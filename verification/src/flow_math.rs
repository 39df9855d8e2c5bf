use vstd::prelude::*;
use crate::arith::{
    lemma_floor_div_add_multiple, lemma_floor_div_bounds, lemma_floor_div_monotone,
    lemma_floor_div_unique,
};

verus! {

/// Items a flow of `rate` items per `d` time units has disbursed before relative time `time`,
/// the first item being disbursed at time 0: the ceiling of `time * rate / d`.
pub open spec fn ceil_count(d: int, rate: int, time: int) -> int {
    (time * rate + d - 1) / d
}

/// The relative time of the last disbursement strictly before `time`.
pub open spec fn ceil_last(d: int, rate: int, time: int) -> int {
    time - 1 - ((time * rate + d - 1) % d) / rate
}

/// Nothing is disbursed before time 0.
pub proof fn lemma_ceil_count_at_zero(d: int, rate: int)
    requires
        d > 0,
    ensures
        ceil_count(d, rate, 0) == 0,
{
    assert(0 * rate == 0);
    lemma_floor_div_unique(d - 1, d, 0);
}

/// Moving by `d` time units adds `rate` items.
pub proof fn lemma_ceil_count_shift(d: int, rate: int, time: int)
    requires
        d > 0,
    ensures
        ceil_count(d, rate, time + d) == ceil_count(d, rate, time) + rate,
{
    assert((time + d) * rate + d - 1 == (time * rate + d - 1) + rate * d) by (nonlinear_arith);
    lemma_floor_div_add_multiple(time * rate + d - 1, rate, d);
}

proof fn lemma_cancel_positive_factor(k: int, d: int)
    requires
        d > 0,
        k * d > 0,
    ensures
        k > 0,
{
    if k <= 0 {
        assert(k * d <= 0) by (nonlinear_arith)
            requires
                k <= 0,
                d > 0,
        ;
    }
}

/// Over `duration` time units a flow disburses the ideal amount rounded down or up.
pub proof fn lemma_ceil_count_density(d: int, rate: int, start: int, duration: int)
    requires
        d > 0,
        rate >= 0,
        duration >= 0,
    ensures
        (rate * duration) / d <= ceil_count(d, rate, start + duration) - ceil_count(d, rate, start),
        ceil_count(d, rate, start + duration) - ceil_count(d, rate, start) <= (rate * duration + d
            - 1) / d,
{
    let x = rate * duration;
    let a = start * rate + d - 1;
    let b = (start + duration) * rate + d - 1;
    assert(b == a + x) by (nonlinear_arith)
        requires
            a == start * rate + d - 1,
            b == (start + duration) * rate + d - 1,
            x == rate * duration,
    ;
    lemma_floor_div_bounds(a, d);
    lemma_floor_div_bounds(b, d);
    lemma_floor_div_bounds(x, d);
    lemma_floor_div_bounds(x + d - 1, d);
    let qa = a / d;
    let qb = b / d;
    let lo = x / d;
    let hi = (x + d - 1) / d;
    assert((qb - qa - lo + 1) * d == qb * d - qa * d - lo * d + d) by (nonlinear_arith);
    lemma_cancel_positive_factor(qb - qa - lo + 1, d);
    assert((hi + 1 - qb + qa) * d == hi * d + d - qb * d + qa * d) by (nonlinear_arith);
    lemma_cancel_positive_factor(hi + 1 - qb + qa, d);
}

/// For `1 <= rate <= d` and `time >= 1`, `ceil_last` is a disbursement time in `[0, time)`
/// after which nothing more is disbursed before `time`.
pub proof fn lemma_ceil_last(d: int, rate: int, time: int)
    requires
        1 <= rate <= d,
        time >= 1,
    ensures
        0 <= ceil_last(d, rate, time) < time,
        ceil_count(d, rate, ceil_last(d, rate, time) + 1) == ceil_count(d, rate, time),
        ceil_count(d, rate, ceil_last(d, rate, time)) == ceil_count(d, rate, time) - 1,
{
    let p = time * rate + d - 1;
    lemma_floor_div_bounds(p, d);
    let q = p / d;
    let f = p % d;
    lemma_floor_div_bounds(f, rate);
    let k = f / rate;
    if k < 0 {
        assert((k + 1) * rate <= 0) by (nonlinear_arith)
            requires
                k <= -1,
                rate >= 1,
        ;
        assert(k * rate + rate == (k + 1) * rate) by (nonlinear_arith);
    }
    assert(k * rate >= 0) by (nonlinear_arith)
        requires
            k >= 0,
            rate >= 1,
    ;
    let o = ceil_last(d, rate, time);
    assert(o == time - 1 - k);
    assert((o + 1) * rate + d - 1 == p - k * rate) by (nonlinear_arith)
        requires
            o == time - 1 - k,
            p == time * rate + d - 1,
    ;
    lemma_floor_div_unique(p - k * rate, d, q);
    assert(o * rate + d - 1 == p - k * rate - rate) by (nonlinear_arith)
        requires
            o == time - 1 - k,
            p == time * rate + d - 1,
    ;
    assert((q - 1) * d == q * d - d) by (nonlinear_arith);
    lemma_floor_div_unique(p - k * rate - rate, d, q - 1);
    assert(time * rate >= 1) by (nonlinear_arith)
        requires
            time >= 1,
            rate >= 1,
    ;
    lemma_floor_div_monotone(d, p, d);
    lemma_floor_div_unique(d, d, 1);
    if o + 1 <= 0 {
        assert((o + 1) * rate <= 0) by (nonlinear_arith)
            requires
                o + 1 <= 0,
                rate >= 1,
        ;
        lemma_floor_div_monotone((o + 1) * rate + d - 1, d - 1, d);
        lemma_floor_div_unique(d - 1, d, 0);
    }
}

/// For `1 <= rate <= d`, item number `n` is disbursed at `(n * d) / rate`.
pub proof fn lemma_ceil_nth(d: int, rate: int, n: int)
    requires
        1 <= rate <= d,
    ensures
        ceil_count(d, rate, (n * d) / rate) == n,
        ceil_count(d, rate, (n * d) / rate + 1) == n + 1,
        n >= 0 ==> (n * d) / rate >= 0,
{
    let m = (n * d) / rate;
    lemma_floor_div_bounds(n * d, rate);
    lemma_floor_div_unique(m * rate + d - 1, d, n);
    assert((m + 1) * rate + d - 1 == m * rate + rate + d - 1) by (nonlinear_arith);
    assert((n + 1) * d == n * d + d) by (nonlinear_arith);
    lemma_floor_div_unique((m + 1) * rate + d - 1, d, n + 1);
    if n >= 0 {
        assert(n * d >= 0) by (nonlinear_arith)
            requires
                n >= 0,
                d > 0,
        ;
        lemma_floor_div_monotone(0, n * d, rate);
    }
}

/// From `t = ceil(amount * d / rate)` on, the count always leads `amount` plus the ideal
/// count, rounded up, for the time past `t`.
pub proof fn lemma_ceil_always_at_least(d: int, rate: int, amount: int, duration: int)
    requires
        d > 0,
        rate > 0,
        duration >= 0,
    ensures
        ceil_count(d, rate, (amount * d + rate - 1) / rate + duration + 1) >= amount + (rate * (
        duration + 1) + d - 1) / d,
{
    let t = (amount * d + rate - 1) / rate;
    lemma_floor_div_bounds(amount * d + rate - 1, rate);
    assert(t * rate >= amount * d);
    let e = rate * (duration + 1) + d - 1;
    assert((t + duration + 1) * rate + d - 1 == t * rate + rate * (duration + 1) + d - 1)
        by (nonlinear_arith);
    lemma_floor_div_monotone(e + amount * d, (t + duration + 1) * rate + d - 1, d);
    lemma_floor_div_add_multiple(e, amount, d);
}

} // verus!
