use vstd::prelude::*;
use crate::flow_math::{
    ceil_count, lemma_ceil_always_at_least, lemma_ceil_count_at_zero, lemma_ceil_count_density,
    lemma_ceil_count_shift, lemma_ceil_last, lemma_ceil_nth,
};
use crate::flow_pattern::{
    always_at_least_from, disbursed_at, disbursed_before, disbursed_between, divisor,
    last_disbursement, nth_disbursement, pattern_disbursed_at, first_disbursement_geq,
    pattern_disbursed_before, pattern_disbursed_between, pattern_last_disbursement,
    pattern_nth_disbursement,
};

verus! {

proof fn lemma_counts_are_ceilings(rate: int, time: int)
    ensures
        divisor() == 2592000,
        disbursed_before(rate, time) == ceil_count(divisor(), rate, time),
{
}

/// A flow repeats every `RATE_DIVISOR` time units: moving a window by `RATE_DIVISOR`
/// leaves the number of items disbursed in it unchanged.
pub proof fn law_flow_rate_cycle(rate: int, start: int, end: int)
    ensures
        disbursed_between(rate, start + divisor(), end + divisor()) == disbursed_between(
            rate,
            start,
            end,
        ),
{
    lemma_counts_are_ceilings(rate, start);
    lemma_ceil_count_shift(divisor(), rate, start);
    lemma_ceil_count_shift(divisor(), rate, end);
}

/// Counted from time 0, a flow disburses the ideal amount rounded up: over `duration`
/// time units, the ceiling of `rate * duration / RATE_DIVISOR` items.
pub proof fn law_flow_rate_rounds_up_from_beginning(rate: int, duration: int)
    ensures
        disbursed_between(rate, 0, duration) == (rate * duration + divisor() - 1) / divisor(),
{
    lemma_counts_are_ceilings(rate, 0);
    lemma_ceil_count_at_zero(divisor(), rate);
    assert(duration * rate == rate * duration) by (nonlinear_arith);
}

/// Over any window of `duration` time units, a flow of non-negative rate disburses the ideal
/// amount `rate * duration / RATE_DIVISOR`, rounded either down or up.
pub proof fn law_flow_rate_density(rate: int, start: int, duration: int)
    requires
        rate >= 0,
        duration >= 0,
    ensures
        (rate * duration) / divisor() <= disbursed_between(rate, start, start + duration),
        disbursed_between(rate, start, start + duration) <= (rate * duration + divisor() - 1)
            / divisor(),
{
    lemma_counts_are_ceilings(rate, start);
    lemma_ceil_count_density(divisor(), rate, start, duration);
}

/// The last disbursement before `time`: when there is none, nothing was disbursed before `time`;
/// otherwise it lies before `time`, nothing is disbursed after it and before `time`, and the
/// window from it to `time` holds exactly one item.
pub proof fn law_last_disbursement_before(start: int, rate: int, time: int)
    requires
        1 <= rate <= divisor(),
    ensures
        match pattern_last_disbursement(start, rate, time) {
            None => pattern_disbursed_before(start, rate, time) == 0,
            Some(t) => {
                &&& t < time
                &&& pattern_disbursed_between(start, rate, t + 1, time) == 0
                &&& pattern_disbursed_between(start, rate, t, time) == 1
            },
        },
{
    lemma_counts_are_ceilings(rate, 0);
    lemma_ceil_count_at_zero(divisor(), rate);
    if time > start {
        lemma_ceil_last(divisor(), rate, time - start);
    }
}

/// Disbursement number `n` happens at `nth_disbursement(rate, n)`: exactly `n` items came
/// before it and `n + 1` items up to and including it.
pub proof fn law_nth_disbursement_time(rate: int, n: int)
    requires
        1 <= rate <= divisor(),
    ensures
        disbursed_before(rate, nth_disbursement(rate, n)) == n,
        disbursed_before(rate, nth_disbursement(rate, n) + 1) == n + 1,
{
    lemma_counts_are_ceilings(rate, 0);
    lemma_ceil_nth(divisor(), rate, n);
}

/// For a pattern, disbursement number `n >= 0` exists, with exactly `n` items before it and
/// `n + 1` up to and including it; negative `n` has none.
pub proof fn law_pattern_nth_disbursement_time(start: int, rate: int, n: int)
    requires
        1 <= rate <= divisor(),
    ensures
        match pattern_nth_disbursement(start, rate, n) {
            None => n < 0,
            Some(t) => {
                &&& pattern_disbursed_before(start, rate, t) == n
                &&& pattern_disbursed_before(start, rate, t + 1) == n + 1
            },
        },
{
    lemma_counts_are_ceilings(rate, 0);
    lemma_ceil_nth(divisor(), rate, n);
}

/// From `always_at_least_from(rate, start, amount)` on, the window beginning at `start` always
/// holds at least `amount` items plus the ideal count, rounded up, for the extra time.
pub proof fn law_always_at_least_amount_plus_ideal_rate(
    rate: int,
    start: int,
    amount: int,
    duration: int,
)
    requires
        rate > 0,
        duration >= 0,
    ensures
        disbursed_between(rate, start, always_at_least_from(rate, start, amount) + duration + 1)
            >= amount + (rate * (duration + 1) + divisor() - 1) / divisor(),
{
    lemma_counts_are_ceilings(rate, 0);
    lemma_ceil_always_at_least(
        divisor(),
        rate,
        amount + disbursed_before(rate, start),
        duration,
    );
}

/// Delaying a pattern's start by `delay` delays its whole count by `delay`.
pub proof fn law_delay_shifts_counts(start: int, rate: int, delay: int, time: int)
    ensures
        pattern_disbursed_before(start + delay, rate, time + delay) == pattern_disbursed_before(
            start,
            rate,
            time,
        ),
{
}

/// A flow of rate at most `RATE_DIVISOR` disburses at most one item per time unit.
pub proof fn law_at_most_one_item_per_time(rate: int, time: int)
    requires
        0 <= rate <= divisor(),
    ensures
        0 <= disbursed_at(rate, time) <= 1,
        disbursed_at(rate, time) == disbursed_between(rate, time, time + 1),
{
    law_flow_rate_density(rate, time, 1);
    crate::arith::lemma_floor_div_monotone(0, rate, divisor());
    crate::arith::lemma_floor_div_monotone(rate + divisor() - 1, 2 * divisor() - 1, divisor());
    crate::arith::lemma_floor_div_unique(2 * divisor() - 1, divisor(), 1);
    crate::arith::lemma_floor_div_unique(0, divisor(), 0);
}

/// The last disbursement of a flow before relative time `time >= 1` lies in `[0, time)`, is a
/// disbursement, and is followed by none before `time`.
pub proof fn law_rate_last_disbursement_before(rate: int, time: int)
    requires
        1 <= rate <= divisor(),
        time >= 1,
    ensures
        0 <= last_disbursement(rate, time) < time,
        disbursed_at(rate, last_disbursement(rate, time)) == 1,
        disbursed_between(rate, last_disbursement(rate, time) + 1, time) == 0,
{
    law_last_disbursement_before(0, rate, time);
    lemma_counts_are_ceilings(rate, 0);
    lemma_ceil_last(divisor(), rate, time);
}

/// A window of a pattern counts the items disbursed before its end less those disbursed before
/// its beginning; so adjacent windows add up, and a window that ends by the start is empty.
pub proof fn law_pattern_between_is_difference(start: int, rate: int, first: int, last: int)
    ensures
        pattern_disbursed_between(start, rate, first, last) == pattern_disbursed_before(
            start,
            rate,
            last,
        ) - pattern_disbursed_before(start, rate, first),
{
    lemma_counts_are_ceilings(rate, 0);
    lemma_ceil_count_at_zero(divisor(), rate);
}

/// Delaying a pattern by `delay` shifts its whole disbursement pattern by `delay`.
pub proof fn law_delay_shifts_disbursements(start: int, rate: int, delay: int, time: int)
    ensures
        pattern_disbursed_at(start + delay, rate, time + delay) == pattern_disbursed_at(
            start,
            rate,
            time,
        ),
{
}

/// The first disbursement at or after `time` does not come before `time`.
pub proof fn law_first_disbursement_geq_not_before(start: int, rate: int, time: int)
    requires
        1 <= rate <= divisor(),
    ensures
        first_disbursement_geq(start, rate, time) >= time,
{
    lemma_counts_are_ceilings(rate, 0);
    lemma_ceil_count_at_zero(divisor(), rate);
    let count = pattern_disbursed_before(start, rate, time);
    law_nth_disbursement_time(rate, count);
    if time > start {
        let x = time - start;
        let t = nth_disbursement(rate, count);
        lemma_counts_are_ceilings(rate, x);
        lemma_counts_are_ceilings(rate, t);
        lemma_counts_are_ceilings(rate, t + 1);
        if t < x {
            law_flow_rate_density(rate, t + 1, x - t - 1);
            assert(disbursed_before(rate, x) >= disbursed_before(rate, t + 1));
        }
    } else {
        crate::arith::lemma_floor_div_unique(0, rate, 0);
    }
}

} // verus!
