use vstd::prelude::*;
use crate::arith::{
    in_i64, lemma_floor_div_add_multiple, lemma_floor_div_bounds, lemma_floor_div_monotone,
    lemma_floor_div_unique, lemma_quotient_of_i64_is_small,
};
use crate::machine_data::{Material, TIME_TO_MOVE_MATERIAL};

verus! {

/// Times and amounts of material.
pub type Number = i64;

/// A flow rate counts the items disbursed per `RATE_DIVISOR` time units.
pub const RATE_DIVISOR: Number = TIME_TO_MOVE_MATERIAL * 2 * 2 * 2 * 2 * 2 * 2 * 3 * 3 * 3 * 5 * 5;

/// `RATE_DIVISOR` as a mathematical integer.
pub open spec fn divisor() -> int {
    RATE_DIVISOR as int
}

/// The scaled progress of a flow of rate `rate` just before relative time `time`.
pub open spec fn progress_before(rate: int, time: int) -> int {
    time * rate + divisor() - 1
}

/// How many items a flow of rate `rate` has disbursed before relative time `time`:
/// the ceiling of `time * rate / RATE_DIVISOR`.
pub open spec fn disbursed_before(rate: int, time: int) -> int {
    progress_before(rate, time) / divisor()
}

/// How many items are disbursed from relative time `start` (inclusive) to `end` (exclusive).
pub open spec fn disbursed_between(rate: int, start: int, end: int) -> int {
    disbursed_before(rate, end) - disbursed_before(rate, start)
}

/// How many items are disbursed at relative time `time` exactly.
pub open spec fn disbursed_at(rate: int, time: int) -> int {
    disbursed_between(rate, time, time + 1)
}

/// The relative time of the last disbursement strictly before relative time `time`.
pub open spec fn last_disbursement(rate: int, time: int) -> int {
    time - 1 - (progress_before(rate, time) % divisor()) / rate
}

/// The relative time at which item number `n` (counting from 0) is disbursed.
pub open spec fn nth_disbursement(rate: int, n: int) -> int {
    (n * divisor()) / rate
}

/// The earliest relative time `T` from which every window `[start, T + d + 1)` holds
/// `amount` items plus the ideal count for `d + 1` time units.
pub open spec fn always_at_least_from(rate: int, start: int, amount: int) -> int {
    ((amount + disbursed_before(rate, start)) * divisor() + rate - 1) / rate
}

/// The progress computation at relative time `time` stays inside `i64`.
pub open spec fn progress_fits(rate: int, time: int) -> bool {
    &&& in_i64(time * rate)
    &&& time * rate + divisor() <= i64::MAX
}

/// The computation of `always_at_least_from` stays inside `i64`.
pub open spec fn always_at_least_fits(rate: int, start: int, amount: int) -> bool {
    &&& progress_fits(rate, start)
    &&& in_i64(amount + disbursed_before(rate, start))
    &&& in_i64((amount + disbursed_before(rate, start)) * divisor())
    &&& (amount + disbursed_before(rate, start)) * divisor() + rate <= i64::MAX
}

/// `x` clamped from below at zero.
pub open spec fn clamp_to_zero(x: int) -> int {
    if x < 0 {
        0
    } else {
        x
    }
}

/// Items disbursed before absolute time `time` by a pattern starting at `start`.
pub open spec fn pattern_disbursed_before(start: int, rate: int, time: int) -> int {
    if time < start {
        0
    } else {
        disbursed_before(rate, time - start)
    }
}

/// Items disbursed at absolute time `time` by a pattern starting at `start`.
pub open spec fn pattern_disbursed_at(start: int, rate: int, time: int) -> int {
    if time < start {
        0
    } else {
        disbursed_at(rate, time - start)
    }
}

/// Items disbursed in the absolute window `[first, last)` by a pattern starting at `start`.
pub open spec fn pattern_disbursed_between(start: int, rate: int, first: int, last: int) -> int {
    disbursed_between(rate, clamp_to_zero(first - start), clamp_to_zero(last - start))
}

/// The last disbursement strictly before absolute time `time`, if the pattern has begun.
pub open spec fn pattern_last_disbursement(start: int, rate: int, time: int) -> Option<int> {
    if time <= start {
        None
    } else {
        Some(last_disbursement(rate, time - start) + start)
    }
}

/// The absolute time of disbursement number `n`, for `n >= 0`.
pub open spec fn pattern_nth_disbursement(start: int, rate: int, n: int) -> Option<int> {
    if n < 0 {
        None
    } else {
        Some(nth_disbursement(rate, n) + start)
    }
}

/// The absolute time of disbursement number `n` (counting from 0) among those at or after
/// absolute time `time`, for a pattern starting at `start`.
pub open spec fn nth_disbursement_geq(start: int, rate: int, n: int, time: int) -> int {
    nth_disbursement(rate, pattern_disbursed_before(start, rate, time) + n) + start
}

/// The absolute time of the first disbursement at or after absolute time `time`.
pub open spec fn first_disbursement_geq(start: int, rate: int, time: int) -> int {
    nth_disbursement_geq(start, rate, 0, time)
}

/// Computing `nth_disbursement_geq` stays inside `i64`.
pub open spec fn nth_geq_fits(start: int, rate: int, n: int, time: int) -> bool {
    let count = pattern_disbursed_before(start, rate, time);
    &&& time >= start ==> in_i64(time - start) && progress_fits(rate, time - start)
    &&& in_i64(count + n)
    &&& in_i64((count + n) * divisor())
    &&& in_i64(nth_disbursement(rate, count + n) + start)
}

/// Floored division, `num::Integer::div_floor` on `i64`. With a positive divisor it returns the
/// mathematical floor of `a / b`, which is the quotient that Verus writes `a / b`.
#[verifier::external_body]
fn div_floor(a: i64, b: i64) -> (r: i64)
    requires
        b > 0,
    ensures
        r == a / b,
{
    num::Integer::div_floor(&a, &b)
}

/// Floored modulo, `num::Integer::mod_floor` on `i64`. With a positive divisor it returns the
/// remainder in `[0, b)`, which is what Verus writes `a % b`.
#[verifier::external_body]
fn mod_floor(a: i64, b: i64) -> (r: i64)
    requires
        b > 0,
    ensures
        r == a % b,
{
    num::Integer::mod_floor(&a, &b)
}

/// A rate of flow: items per `RATE_DIVISOR` time units.
#[derive(Copy, Clone, PartialEq, Eq, Hash, Debug, Structural)]
pub struct FlowRate {
    rate: Number,
}

impl View for FlowRate {
    type V = int;

    closed spec fn view(&self) -> int {
        self.rate as int
    }
}

impl Default for FlowRate {
    fn default() -> (r: FlowRate)
        ensures
            r@ == 0,
    {
        FlowRate { rate: 0 }
    }
}

impl FlowRate {
    #[verifier::type_invariant]
    spec fn never_negative(self) -> bool {
        self.rate >= 0
    }

    /// Every flow rate value holds an `i64`.
    pub proof fn lemma_rate_in_i64(&self)
        ensures
            in_i64(self@),
    {
    }

    /// A flow rate of `rate` items per `RATE_DIVISOR` time units; rate 0 is no flow.
    pub fn new(rate: Number) -> (r: FlowRate)
        requires
            rate >= 0,
        ensures
            r@ == rate,
    {
        FlowRate { rate }
    }

    pub fn rate(&self) -> (r: Number)
        ensures
            r == self@,
            r >= 0,
    {
        proof {
            use_type_invariant(self);
        }
        self.rate
    }

    fn fractional_progress_before(&self, time: Number) -> (r: Number)
        requires
            progress_fits(self@, time as int),
        ensures
            r == progress_before(self@, time as int),
    {
        time * self.rate + RATE_DIVISOR - 1
    }

    pub fn num_disbursed_at_time(&self, time: Number) -> (r: Number)
        requires
            time < i64::MAX,
            progress_fits(self@, time as int),
            progress_fits(self@, time + 1),
        ensures
            r == disbursed_at(self@, time as int),
    {
        let later = self.num_disbursed_before(time + 1);
        let earlier = self.num_disbursed_before(time);
        proof {
            lemma_quotient_of_i64_is_small(progress_before(self@, time + 1), divisor());
            lemma_quotient_of_i64_is_small(progress_before(self@, time as int), divisor());
        }
        later - earlier
    }

    /// Items disbursed before relative time `time` (0 for time 0).
    fn num_disbursed_before(&self, time: Number) -> (r: Number)
        requires
            progress_fits(self@, time as int),
        ensures
            r == disbursed_before(self@, time as int),
    {
        div_floor(self.fractional_progress_before(time), RATE_DIVISOR)
    }

    pub fn num_disbursed_between(&self, range: [Number; 2]) -> (r: Number)
        requires
            progress_fits(self@, range[0] as int),
            progress_fits(self@, range[1] as int),
        ensures
            r == disbursed_between(self@, range[0] as int, range[1] as int),
    {
        let end = self.num_disbursed_before(range[1]);
        let start = self.num_disbursed_before(range[0]);
        proof {
            lemma_quotient_of_i64_is_small(progress_before(self@, range[1] as int), divisor());
            lemma_quotient_of_i64_is_small(progress_before(self@, range[0] as int), divisor());
        }
        end - start
    }

    pub fn last_disbursement_before(&self, time: Number) -> (r: Number)
        requires
            self@ > 0,
            progress_fits(self@, time as int),
            in_i64(last_disbursement(self@, time as int)),
        ensures
            r == last_disbursement(self@, time as int),
    {
        let fractional_part = mod_floor(self.fractional_progress_before(time), RATE_DIVISOR);
        let time_not_disbursing = div_floor(fractional_part, self.rate);
        proof {
            lemma_floor_div_bounds(progress_before(self@, time as int), divisor());
            lemma_floor_div_monotone(0, fractional_part as int, self@);
        }
        time - 1 - time_not_disbursing
    }

    pub fn nth_disbursement_time(&self, n: Number) -> (r: Number)
        requires
            self@ > 0,
            in_i64(n * divisor()),
        ensures
            r == nth_disbursement(self@, n as int),
    {
        div_floor(n * RATE_DIVISOR, self.rate)
    }

    pub fn time_from_which_this_will_always_disburse_at_least_amount_plus_ideal_rate(
        &self,
        start_time: Number,
        target_amount: Number,
    ) -> (r: Number)
        requires
            self@ > 0,
            always_at_least_fits(self@, start_time as int, target_amount as int),
        ensures
            r == always_at_least_from(self@, start_time as int, target_amount as int),
    {
        let already_disbursed = self.num_disbursed_before(start_time);
        let target_amount = target_amount + already_disbursed;
        div_floor(target_amount * RATE_DIVISOR + self.rate - 1, self.rate)
    }
}

/// A flow that starts at `start_time` and then disburses at a fixed rate.
#[derive(Copy, Clone, PartialEq, Eq, Hash, Debug, Structural)]
pub struct FlowPattern {
    start_time: Number,
    rate: FlowRate,
}

impl View for FlowPattern {
    /// (start time, rate)
    type V = (int, int);

    closed spec fn view(&self) -> (int, int) {
        (self.start_time as int, self.rate@)
    }
}

impl Default for FlowPattern {
    fn default() -> (p: FlowPattern)
        ensures
            p@ == (0int, 0int),
    {
        FlowPattern { start_time: 0, rate: FlowRate::default() }
    }
}

impl FlowPattern {
    /// Every pattern's start time and rate hold `i64` values.
    pub proof fn lemma_view_in_i64(&self)
        ensures
            in_i64(self@.0),
            in_i64(self@.1),
    {
    }

    /// A pattern starting at `start_time` with rate `rate`; rate 0 is no flow.
    pub fn new(start_time: Number, rate: Number) -> (p: FlowPattern)
        requires
            rate >= 0,
        ensures
            p@ == (start_time as int, rate as int),
    {
        FlowPattern { start_time, rate: FlowRate::new(rate) }
    }

    pub fn start_time(&self) -> (r: Number)
        ensures
            r == self@.0,
    {
        self.start_time
    }

    pub fn rate(&self) -> (r: Number)
        ensures
            r == self@.1,
            r >= 0,
    {
        self.rate.rate()
    }

    /// The same pattern, started `delay` later.
    pub fn delayed_by(&self, delay: Number) -> (p: FlowPattern)
        requires
            self@.1 > 0,
            in_i64(self@.0 + delay),
        ensures
            p@ == (self@.0 + delay, self@.1),
    {
        FlowPattern::new(self.start_time + delay, self.rate.rate())
    }

    pub fn num_disbursed_at_time(&self, time: Number) -> (r: Number)
        requires
            time >= self@.0 ==> {
                &&& in_i64(time - self@.0)
                &&& time - self@.0 < i64::MAX
                &&& progress_fits(self@.1, time - self@.0)
                &&& progress_fits(self@.1, time - self@.0 + 1)
            },
        ensures
            r == pattern_disbursed_at(self@.0, self@.1, time as int),
    {
        if time < self.start_time {
            return 0;
        }
        self.rate.num_disbursed_at_time(time - self.start_time)
    }

    pub fn num_disbursed_between(&self, range: [Number; 2]) -> (r: Number)
        requires
            in_i64(range[0] - self@.0),
            in_i64(range[1] - self@.0),
            progress_fits(self@.1, clamp_to_zero(range[0] - self@.0)),
            progress_fits(self@.1, clamp_to_zero(range[1] - self@.0)),
        ensures
            r == pattern_disbursed_between(self@.0, self@.1, range[0] as int, range[1] as int),
    {
        let first = range[0] - self.start_time;
        let last = range[1] - self.start_time;
        let first = if first < 0 { 0 } else { first };
        let last = if last < 0 { 0 } else { last };
        self.rate.num_disbursed_between([first, last])
    }

    pub fn num_disbursed_before(&self, time: Number) -> (r: Number)
        requires
            time >= self@.0 ==> in_i64(time - self@.0) && progress_fits(self@.1, time - self@.0),
        ensures
            r == pattern_disbursed_before(self@.0, self@.1, time as int),
    {
        if time < self.start_time {
            return 0;
        }
        self.rate.num_disbursed_before(time - self.start_time)
    }

    pub fn last_disbursement_before(&self, time: Number) -> (r: Option<Number>)
        requires
            time > self@.0 ==> {
                &&& self@.1 > 0
                &&& in_i64(time - self@.0)
                &&& progress_fits(self@.1, time - self@.0)
                &&& in_i64(last_disbursement(self@.1, time - self@.0))
                &&& in_i64(last_disbursement(self@.1, time - self@.0) + self@.0)
            },
        ensures
            r matches Some(t) ==> pattern_last_disbursement(self@.0, self@.1, time as int) == Some(
                t as int,
            ),
            r is None ==> pattern_last_disbursement(self@.0, self@.1, time as int) is None,
    {
        if time <= self.start_time {
            return None;
        }
        Some(self.rate.last_disbursement_before(time - self.start_time) + self.start_time)
    }

    pub fn nth_disbursement_time(&self, n: Number) -> (r: Option<Number>)
        requires
            n >= 0 ==> {
                &&& self@.1 > 0
                &&& in_i64(n * divisor())
                &&& in_i64(nth_disbursement(self@.1, n as int) + self@.0)
            },
        ensures
            r matches Some(t) ==> pattern_nth_disbursement(self@.0, self@.1, n as int) == Some(
                t as int,
            ),
            r is None ==> pattern_nth_disbursement(self@.0, self@.1, n as int) is None,
    {
        if n < 0 {
            return None;
        }
        Some(self.rate.nth_disbursement_time(n) + self.start_time)
    }
}

/// The pattern with the given start time and rate.
pub closed spec fn pattern_of(start: int, rate: int) -> FlowPattern {
    FlowPattern { start_time: start as i64, rate: FlowRate { rate: rate as i64 } }
}

/// A rate is determined by its value.
pub proof fn lemma_rate_determined(a: FlowRate, b: FlowRate)
    requires
        a@ == b@,
    ensures
        a == b,
{
}

/// A pattern is determined by its start time and rate, and `pattern_of` gives them back.
pub proof fn lemma_pattern_of(p: FlowPattern, start: int, rate: int)
    ensures
        p == pattern_of(p@.0, p@.1),
        in_i64(start) && in_i64(rate) ==> pattern_of(start, rate)@ == (start, rate),
{
}

/// A flow of one material.
#[derive(Copy, Clone, PartialEq, Eq, Hash, Debug, Structural)]
pub struct MaterialFlow {
    pub material: Material,
    pub flow: FlowPattern,
}

/// A rate of flow of one material.
#[derive(Copy, Clone, PartialEq, Eq, Hash, Debug, Structural)]
pub struct MaterialFlowRate {
    pub material: Material,
    pub flow: FlowRate,
}

impl MaterialFlow {
    /// The time of disbursement number `n` (counting from 0) among those at or after `time`;
    /// `None` exactly where the computation leaves `i64`.
    pub fn nth_disbursement_time_geq(&self, n: Number, time: Number) -> (r: Option<Number>)
        requires
            self.flow@.1 > 0,
            n >= 0,
        ensures
            r is Some <==> nth_geq_fits(self.flow@.0, self.flow@.1, n as int, time as int),
            r matches Some(t) ==> t == nth_disbursement_geq(
                self.flow@.0,
                self.flow@.1,
                n as int,
                time as int,
            ),
    {
        let start = self.flow.start_time();
        let rate = self.flow.rate();
        let ghost count_spec = pattern_disbursed_before(start as int, rate as int, time as int);
        let count: i64 = if time < start {
            0
        } else {
            let wide: i128 = time as i128 - start as i128;
            if wide > i64::MAX as i128 {
                return None;
            }
            let relative = wide as i64;
            assert((relative as int) * (rate as int) <= (i64::MAX as int) * (i64::MAX as int))
                by (nonlinear_arith)
                requires
                    0 <= relative <= i64::MAX,
                    0 <= rate <= i64::MAX,
            ;
            assert((relative as int) * (rate as int) >= 0) by (nonlinear_arith)
                requires
                    0 <= relative,
                    0 <= rate,
            ;
            let progress: i128 = (relative as i128) * (rate as i128);
            if progress + RATE_DIVISOR as i128 > i64::MAX as i128 {
                return None;
            }
            self.flow.num_disbursed_before(time)
        };
        assert(count == count_spec);
        assert(count >= 0);
        let k_wide: i128 = count as i128 + n as i128;
        if k_wide > i64::MAX as i128 {
            return None;
        }
        let d: i128 = RATE_DIVISOR as i128;
        assert(d == 2592000);
        assert(k_wide * d <= (i64::MAX as int) * 2592000) by (nonlinear_arith)
            requires
                0 <= k_wide <= i64::MAX,
                d == 2592000,
        ;
        assert(k_wide * d >= 0) by (nonlinear_arith)
            requires
                0 <= k_wide,
                d == 2592000,
        ;
        let scaled: i128 = k_wide * d;
        if scaled > i64::MAX as i128 {
            return None;
        }
        let relative_time: i128 = scaled / rate as i128;
        proof {
            crate::arith::lemma_floor_div_monotone(0, scaled as int, rate as int);
            assert(scaled as int * rate as int >= scaled as int) by (nonlinear_arith)
                requires
                    scaled >= 0,
                    rate >= 1,
            ;
            crate::arith::lemma_floor_div_monotone(scaled as int, scaled as int * rate as int, rate as int);
            crate::arith::lemma_floor_div_add_multiple(0, scaled as int, rate as int);
        }
        let total: i128 = relative_time + start as i128;
        if total < i64::MIN as i128 || total > i64::MAX as i128 {
            return None;
        }
        self.flow.nth_disbursement_time(k_wide as i64)
    }

    /// The time of the first disbursement at or after `time`; `None` exactly where the
    /// computation leaves `i64`.
    pub fn first_disbursement_time_geq(&self, time: Number) -> (r: Option<Number>)
        requires
            self.flow@.1 > 0,
        ensures
            r is Some <==> nth_geq_fits(self.flow@.0, self.flow@.1, 0, time as int),
            r matches Some(t) ==> t == first_disbursement_geq(self.flow@.0, self.flow@.1, time as int),
    {
        self.nth_disbursement_time_geq(0, time)
    }
}

} // verus!
