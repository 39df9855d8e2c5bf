use vstd::prelude::*;
use crate::flow_math::{
    ceil_count, ceil_last, lemma_ceil_always_at_least, lemma_ceil_count_density, lemma_ceil_last,
    lemma_ceil_nth,
};
use crate::simulation::{
    sim_always_at_least_from, sim_disbursed_before, sim_disbursed_between, sim_divisor,
    sim_last_disbursement, sim_progress, sim_when_disburses_at_least,
};

verus! {

/// From its start on, a pattern of non-negative rate counts like a flow started at time 0.
proof fn lemma_sim_count_is_ceiling(start: int, rate: int, time: int)
    requires
        rate >= 0,
        time >= start,
    ensures
        sim_divisor() == 43200,
        sim_disbursed_before((start, rate), time) == ceil_count(sim_divisor(), rate, time - start),
{
    assert((time - start) * rate >= 0) by (nonlinear_arith)
        requires
            time - start >= 0,
            rate >= 0,
    ;
    if time == start {
        assert((time - start) * rate == 0) by (nonlinear_arith)
            requires
                time == start,
        ;
    }
    assert(sim_progress((start, rate), time) == (time - start) * rate + sim_divisor() - 1);
}

/// Over any window from the start on, a pattern of non-negative rate disburses the ideal
/// amount `rate * duration / RATE_DIVISOR`, rounded down or up.
pub proof fn law_sim_density(start: int, rate: int, time: int, duration: int)
    requires
        rate >= 0,
        time >= start,
        duration >= 0,
    ensures
        (rate * duration) / sim_divisor() <= sim_disbursed_between(
            (start, rate),
            time,
            time + duration,
        ),
        sim_disbursed_between((start, rate), time, time + duration) <= (rate * duration
            + sim_divisor() - 1) / sim_divisor(),
{
    lemma_sim_count_is_ceiling(start, rate, time);
    lemma_sim_count_is_ceiling(start, rate, time + duration);
    lemma_ceil_count_density(sim_divisor(), rate, time - start, duration);
}

/// Counted from its start, a pattern disburses the ideal amount rounded up.
pub proof fn law_sim_rounds_up_from_beginning(start: int, rate: int, duration: int)
    requires
        rate >= 0,
        duration >= 0,
    ensures
        sim_disbursed_before((start, rate), start + duration) == (rate * duration + sim_divisor()
            - 1) / sim_divisor(),
{
    lemma_sim_count_is_ceiling(start, rate, start + duration);
    assert(duration * rate == rate * duration) by (nonlinear_arith);
}

/// After the start, the last disbursement lies before `time`, nothing follows it before `time`,
/// and the window from it to `time` holds exactly one item.
pub proof fn law_sim_last_disbursement_before(start: int, rate: int, time: int)
    requires
        1 <= rate <= sim_divisor(),
        time > start,
    ensures
        sim_last_disbursement((start, rate), time) matches Some(t) && {
            &&& t < time
            &&& sim_disbursed_between((start, rate), t + 1, time) == 0
            &&& sim_disbursed_between((start, rate), t, time) == 1
        },
{
    let d = sim_divisor();
    lemma_sim_count_is_ceiling(start, rate, time);
    lemma_ceil_last(d, rate, time - start);
    let o = ceil_last(d, rate, time - start);
    assert(sim_progress((start, rate), time) == (time - start) * rate + d - 1);
    assert(sim_last_disbursement((start, rate), time) == Some(o + start));
    lemma_sim_count_is_ceiling(start, rate, o + start);
    lemma_sim_count_is_ceiling(start, rate, o + start + 1);
}

/// For `amount >= 1`, the pattern has disbursed `amount - 1` items before the returned time and
/// `amount` items up to and including it.
pub proof fn law_sim_when_disburses_at_least(start: int, rate: int, amount: int)
    requires
        1 <= rate <= sim_divisor(),
        amount >= 1,
    ensures
        sim_when_disburses_at_least((start, rate), amount) matches Some(t) && {
            &&& sim_disbursed_before((start, rate), t) == amount - 1
            &&& sim_disbursed_before((start, rate), t + 1) == amount
        },
{
    let d = sim_divisor();
    lemma_ceil_nth(d, rate, amount - 1);
    let m = ((amount - 1) * d) / rate;
    lemma_sim_count_is_ceiling(start, rate, start + m);
    lemma_sim_count_is_ceiling(start, rate, start + m + 1);
}

/// From the returned time on, the count from the start always holds `amount` plus the ideal
/// count, rounded up, for the time past it.
pub proof fn law_sim_always_at_least_amount_plus_ideal_rate(
    start: int,
    rate: int,
    amount: int,
    duration: int,
)
    requires
        rate >= 1,
        amount >= 1,
        duration >= 0,
    ensures
        sim_always_at_least_from((start, rate), amount) matches Some(t) && sim_disbursed_before(
            (start, rate),
            t + duration + 1,
        ) >= amount + (rate * (duration + 1) + sim_divisor() - 1) / sim_divisor(),
{
    let d = sim_divisor();
    let t = (amount * d + rate - 1) / rate;
    assert(amount * d + rate - 1 >= 0) by (nonlinear_arith)
        requires
            amount >= 1,
            d > 0,
            rate >= 1,
    ;
    crate::arith::lemma_floor_div_monotone(0, amount * d + rate - 1, rate);
    lemma_ceil_always_at_least(d, rate, amount, duration);
    lemma_sim_count_is_ceiling(start, rate, start + t + duration + 1);
}

} // verus!
