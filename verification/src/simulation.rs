use vstd::prelude::*;
use crate::arith::in_i64;
use crate::geometry::{add_points, point_in_i64, rotate_point, Vector};

verus! {

pub type Number = i64;

/// The most machines a graph built from a map holds.
pub const MAX_COMPONENTS: usize = 32;
/// A rate counts items per `RATE_DIVISOR` time units.
pub const RATE_DIVISOR: Number = 2 * 2 * 2 * 2 * 2 * 2 * 3 * 3 * 3 * 5 * 5;
/// The most inputs (or outputs) a machine has.
pub const MAX_MACHINE_INPUTS: usize = 8;

/// `RATE_DIVISOR` as a mathematical integer.
pub open spec fn sim_divisor() -> int {
    RATE_DIVISOR as int
}

/// Division rounding towards zero, as Rust's `/` on integers does, for a positive divisor.
pub open spec fn trunc_div(a: int, d: int) -> int {
    if a >= 0 {
        a / d
    } else {
        -((-a) / d)
    }
}

/// A flow that disburses `rate` items per `RATE_DIVISOR` time units, the first at `start_time`.
#[derive(Copy, Clone, Eq, Hash, Debug)]
pub struct FlowPattern {
    pub start_time: Number,
    pub rate: Number,
}

impl View for FlowPattern {
    /// (start time, rate)
    type V = (int, int);

    open spec fn view(&self) -> (int, int) {
        (self.start_time as int, self.rate as int)
    }
}

impl Default for FlowPattern {
    fn default() -> (p: FlowPattern)
        ensures
            p@ == (0int, 0int),
    {
        FlowPattern { start_time: 0, rate: 0 }
    }
}

/// Two patterns are the same flow when their rates agree and, unless nothing flows, their starts.
pub open spec fn same_flow(a: (int, int), b: (int, int)) -> bool {
    a.1 == b.1 && (a.1 == 0 || a.0 == b.0)
}

impl PartialEq for FlowPattern {
    fn eq(&self, other: &Self) -> (r: bool) {
        self.rate == other.rate && (self.rate == 0 || self.start_time == other.start_time)
    }
}

impl vstd::std_specs::cmp::PartialEqSpecImpl for FlowPattern {
    open spec fn obeys_eq_spec() -> bool {
        true
    }

    open spec fn eq_spec(&self, other: &FlowPattern) -> bool {
        same_flow(self@, other@)
    }
}

/// The scaled progress of a pattern just before absolute time `time`.
pub open spec fn sim_progress(p: (int, int), time: int) -> int {
    if time <= p.0 {
        sim_divisor() - 1
    } else {
        (time - p.0) * p.1 + sim_divisor() - 1
    }
}

/// The progress computation at `time` stays inside `i64`.
pub open spec fn sim_progress_fits(p: (int, int), time: int) -> bool {
    time > p.0 ==> {
        &&& in_i64(time - p.0)
        &&& in_i64((time - p.0) * p.1)
        &&& (time - p.0) * p.1 + sim_divisor() <= i64::MAX
    }
}

/// Items disbursed before absolute time `time`.
pub open spec fn sim_disbursed_before(p: (int, int), time: int) -> int {
    trunc_div(sim_progress(p, time), sim_divisor())
}

/// Items disbursed in the window `[first, last)`.
pub open spec fn sim_disbursed_between(p: (int, int), first: int, last: int) -> int {
    sim_disbursed_before(p, last) - sim_disbursed_before(p, first)
}

/// Items disbursed at time `time` exactly.
pub open spec fn sim_disbursed_at(p: (int, int), time: int) -> int {
    sim_disbursed_between(p, time, time + 1)
}

/// The last disbursement strictly before `time`, when the pattern has begun and flows.
pub open spec fn sim_last_disbursement(p: (int, int), time: int) -> Option<int> {
    if time <= p.0 || p.1 <= 0 {
        None
    } else {
        Some(time - 1 - (sim_progress(p, time) % sim_divisor()) / p.1)
    }
}

/// The time at which the pattern has disbursed `amount` items, counting the one at that time.
pub open spec fn sim_when_disburses_at_least(p: (int, int), amount: int) -> Option<int> {
    if amount <= 0 {
        Some(i64::MIN as int)
    } else if p.1 <= 0 {
        None
    } else {
        Some(p.0 + ((amount - 1) * sim_divisor()) / p.1)
    }
}

/// The time from which every window from the start holds `amount` items plus the ideal count.
pub open spec fn sim_always_at_least_from(p: (int, int), amount: int) -> Option<int> {
    if amount <= 0 {
        Some(i64::MIN as int)
    } else if p.1 <= 0 {
        None
    } else {
        Some(p.0 + (amount * sim_divisor() + p.1 - 1) / p.1)
    }
}

proof fn lemma_quotient_small(x: int)
    requires
        in_i64(x),
    ensures
        -0x4000_0000_0000_0000 <= trunc_div(x, sim_divisor()) <= 0x3fff_ffff_ffff_ffff,
{
    crate::arith::lemma_quotient_of_i64_is_small(x, sim_divisor());
    if x < 0 {
        let d = sim_divisor();
        crate::arith::lemma_floor_div_bounds(-x, d);
        let q = (-x) / d;
        assert(q <= 0x4000_0000_0000_0000) by (nonlinear_arith)
            requires
                q * d <= -x,
                -x <= 0x8000_0000_0000_0000,
                d >= 2,
        ;
        crate::arith::lemma_floor_div_monotone(0, -x, d);
    }
}

impl FlowPattern {
    fn fractional_progress_before(&self, time: Number) -> (r: Number)
        requires
            sim_progress_fits(self@, time as int),
        ensures
            r == sim_progress(self@, time as int),
    {
        if time <= self.start_time {
            return RATE_DIVISOR - 1;
        }
        (time - self.start_time) * self.rate + RATE_DIVISOR - 1
    }

    pub fn num_disbursed_at_time(&self, time: Number) -> (r: Number)
        requires
            time < i64::MAX,
            sim_progress_fits(self@, time as int),
            sim_progress_fits(self@, time + 1),
        ensures
            r == sim_disbursed_at(self@, time as int),
    {
        let later = self.num_disbursed_before(time + 1);
        let earlier = self.num_disbursed_before(time);
        proof {
            lemma_quotient_small(sim_progress(self@, time + 1));
            lemma_quotient_small(sim_progress(self@, time as int));
        }
        later - earlier
    }

    pub fn num_disbursed_before(&self, time: Number) -> (r: Number)
        requires
            sim_progress_fits(self@, time as int),
        ensures
            r == sim_disbursed_before(self@, time as int),
    {
        self.fractional_progress_before(time) / RATE_DIVISOR
    }

    pub fn num_disbursed_between(&self, range: [Number; 2]) -> (r: Number)
        requires
            sim_progress_fits(self@, range[0] as int),
            sim_progress_fits(self@, range[1] as int),
        ensures
            r == sim_disbursed_between(self@, range[0] as int, range[1] as int),
    {
        let last = self.num_disbursed_before(range[1]);
        let first = self.num_disbursed_before(range[0]);
        proof {
            lemma_quotient_small(sim_progress(self@, range[1] as int));
            lemma_quotient_small(sim_progress(self@, range[0] as int));
        }
        last - first
    }

    pub fn last_disbursement_before(&self, time: Number) -> (r: Option<Number>)
        requires
            time > self@.0 && self@.1 > 0 ==> {
                &&& sim_progress_fits(self@, time as int)
                &&& in_i64(sim_last_disbursement(self@, time as int).unwrap())
            },
        ensures
            r matches Some(t) ==> sim_last_disbursement(self@, time as int) == Some(t as int),
            r is None ==> sim_last_disbursement(self@, time as int) is None,
    {
        if time <= self.start_time || self.rate <= 0 {
            return None;
        }
        let progress = self.fractional_progress_before(time);
        proof {
            assert((time - self@.0) * self@.1 >= 0) by (nonlinear_arith)
                requires
                    time - self@.0 > 0,
                    self@.1 > 0,
            ;
        }
        let fractional_part = progress % RATE_DIVISOR;
        let time_not_disbursing = fractional_part / self.rate;
        Some(time - 1 - time_not_disbursing)
    }

    pub fn when_disburses_at_least(&self, amount: Number) -> (r: Option<Number>)
        requires
            amount > 0 && self@.1 > 0 ==> {
                &&& in_i64((amount - 1) * sim_divisor())
                &&& in_i64(sim_when_disburses_at_least(self@, amount as int).unwrap())
            },
        ensures
            r matches Some(t) ==> sim_when_disburses_at_least(self@, amount as int) == Some(
                t as int,
            ),
            r is None ==> sim_when_disburses_at_least(self@, amount as int) is None,
    {
        if amount <= 0 {
            return Some(i64::MIN);
        }
        if self.rate <= 0 {
            return None;
        }
        proof {
            assert((amount - 1) * sim_divisor() >= 0) by (nonlinear_arith)
                requires
                    amount >= 1,
                    sim_divisor() > 0,
            ;
            crate::arith::lemma_floor_div_monotone(0, (amount - 1) * sim_divisor(), self@.1);
        }
        Some(self.start_time + ((amount - 1) * RATE_DIVISOR) / self.rate)
    }

    pub fn from_when_will_always_disburse_at_least_amount_plus_ideal_rate(
        &self,
        amount: Number,
    ) -> (r: Option<Number>)
        requires
            amount > 0 && self@.1 > 0 ==> {
                &&& in_i64(amount * sim_divisor())
                &&& amount * sim_divisor() + self@.1 <= i64::MAX
                &&& in_i64(sim_always_at_least_from(self@, amount as int).unwrap())
            },
        ensures
            r matches Some(t) ==> sim_always_at_least_from(self@, amount as int) == Some(t as int),
            r is None ==> sim_always_at_least_from(self@, amount as int) is None,
    {
        if amount <= 0 {
            return Some(i64::MIN);
        }
        if self.rate <= 0 {
            return None;
        }
        proof {
            assert(amount * sim_divisor() >= 0) by (nonlinear_arith)
                requires
                    amount >= 1,
                    sim_divisor() > 0,
            ;
            crate::arith::lemma_floor_div_monotone(
                0,
                amount * sim_divisor() + self@.1 - 1,
                self@.1,
            );
        }
        Some(self.start_time + (amount * RATE_DIVISOR + self.rate - 1) / self.rate)
    }
}

/// `vector` turned `angle % 4` quarter turns.
pub fn rotate_90(vector: Vector, angle: u8) -> (r: Vector)
    requires
        point_in_i64(rotate_point(vector@, (angle % 4) as int)),
    ensures
        r@ == rotate_point(vector@, (angle % 4) as int),
{
    match angle % 4 {
        0 => vector,
        1 => Vector::new(-vector.1, vector.0),
        2 => Vector::new(-vector.0, -vector.1),
        _ => Vector::new(vector.1, -vector.0),
    }
}


#[derive(Copy, Clone, PartialEq, Eq, Hash, Debug, Structural)]
struct StandardMachineInput {
    cost: Number,
    relative_location: Vector,
}

#[derive(Copy, Clone, PartialEq, Eq, Hash, Debug, Structural)]
struct StandardMachineOutput {
    amount: Number,
    relative_location: Vector,
}

/// A machine that consumes `cost` items from each input to produce `amount` items at each output,
/// at most once every `min_output_cycle_length` time units.
#[derive(PartialEq, Eq, Hash, Debug)]
pub struct StandardMachine {
    inputs: Vec<StandardMachineInput>,
    outputs: Vec<StandardMachineOutput>,
    min_output_cycle_length: Number,
}

/// A machine as mathematical values: (inputs as (cost, location), outputs as (amount, location),
/// minimum output cycle length).
pub type MachineModel = (Seq<(int, (int, int))>, Seq<(int, (int, int))>, int);

impl StandardMachine {
    #[verifier::type_invariant]
    spec fn well_formed(self) -> bool {
        &&& self.inputs.len() <= MAX_MACHINE_INPUTS
        &&& self.outputs.len() <= MAX_MACHINE_INPUTS
        &&& self.min_output_cycle_length > 0
        &&& forall|i: int| 0 <= i < self.inputs.len() ==> #[trigger] self.inputs[i].cost > 0
        &&& forall|i: int| 0 <= i < self.outputs.len() ==> #[trigger] self.outputs[i].amount > 0
    }
}

impl View for StandardMachine {
    type V = MachineModel;

    closed spec fn view(&self) -> MachineModel {
        (
            self.inputs@.map_values(
                |input: StandardMachineInput| (input.cost as int, input.relative_location@),
            ),
            self.outputs@.map_values(
                |output: StandardMachineOutput| (output.amount as int, output.relative_location@),
            ),
            self.min_output_cycle_length as int,
        )
    }
}

impl Clone for StandardMachine {
    fn clone(&self) -> (r: StandardMachine)
        ensures
            r@ == self@,
    {
        proof {
            use_type_invariant(self);
        }
        let inputs = self.inputs.clone();
        let outputs = self.outputs.clone();
        assert(inputs@ =~= self.inputs@);
        assert(outputs@ =~= self.outputs@);
        StandardMachine { inputs, outputs, min_output_cycle_length: self.min_output_cycle_length }
    }
}

/// The properties every machine has.
pub open spec fn machine_model_valid(m: MachineModel) -> bool {
    &&& m.0.len() <= MAX_MACHINE_INPUTS
    &&& m.1.len() <= MAX_MACHINE_INPUTS
    &&& m.2 > 0
    &&& forall|i: int| 0 <= i < m.0.len() ==> #[trigger] m.0[i].0 > 0
    &&& forall|i: int| 0 <= i < m.1.len() ==> #[trigger] m.1[i].0 > 0
}

fn standard_machine(
    inputs: Vec<StandardMachineInput>,
    outputs: Vec<StandardMachineOutput>,
    min_output_cycle_length: Number,
) -> (m: StandardMachine)
    requires
        inputs.len() <= MAX_MACHINE_INPUTS,
        outputs.len() <= MAX_MACHINE_INPUTS,
        min_output_cycle_length > 0,
        forall|i: int| 0 <= i < inputs.len() ==> #[trigger] inputs[i].cost > 0,
        forall|i: int| 0 <= i < outputs.len() ==> #[trigger] outputs[i].amount > 0,
    ensures
        m.inputs == inputs,
        m.outputs == outputs,
        m.min_output_cycle_length == min_output_cycle_length,
{
    StandardMachine { inputs, outputs, min_output_cycle_length }
}

/// A conveyor: one input of cost 1 at (0, 0), one output of 1 at (1, 0), cycle 1.
pub fn conveyor() -> (m: StandardMachine)
    ensures
        m@ == (seq![(1int, (0int, 0int))], seq![(1int, (1int, 0int))], 1int),
{
    let m = standard_machine(
        vec![StandardMachineInput { cost: 1, relative_location: Vector::new(0, 0) }],
        vec![StandardMachineOutput { amount: 1, relative_location: Vector::new(1, 0) }],
        1,
    );
    assert(m@.0 =~= seq![(1int, (0int, 0int))]);
    assert(m@.1 =~= seq![(1int, (1int, 0int))]);
    m
}

/// A splitter: one input of cost 2 at (0, 0), outputs of 1 at (1, 0) and (-1, 0), cycle 1.
pub fn splitter() -> (m: StandardMachine)
    ensures
        m@ == (
            seq![(2int, (0int, 0int))],
            seq![(1int, (1int, 0int)), (1int, (-1int, 0int))],
            1int,
        ),
{
    let m = standard_machine(
        vec![StandardMachineInput { cost: 2, relative_location: Vector::new(0, 0) }],
        vec![
            StandardMachineOutput { amount: 1, relative_location: Vector::new(1, 0) },
            StandardMachineOutput { amount: 1, relative_location: Vector::new(-1, 0) },
        ],
        1,
    );
    assert(m@.0 =~= seq![(2int, (0int, 0int))]);
    assert(m@.1 =~= seq![(1int, (1int, 0int)), (1int, (-1int, 0int))]);
    m
}

/// A merger: inputs of cost 1 at (1, 0) and (-1, 0), one output of 2 at (1, 0), cycle 1.
pub fn merger() -> (m: StandardMachine)
    ensures
        m@ == (
            seq![(1int, (1int, 0int)), (1int, (-1int, 0int))],
            seq![(2int, (1int, 0int))],
            1int,
        ),
{
    let m = standard_machine(
        vec![
            StandardMachineInput { cost: 1, relative_location: Vector::new(1, 0) },
            StandardMachineInput { cost: 1, relative_location: Vector::new(-1, 0) },
        ],
        vec![StandardMachineOutput { amount: 2, relative_location: Vector::new(1, 0) }],
        1,
    );
    assert(m@.0 =~= seq![(1int, (1int, 0int)), (1int, (-1int, 0int))]);
    assert(m@.1 =~= seq![(2int, (1int, 0int))]);
    m
}

/// A slow machine: like a conveyor, but with output cycle 10.
pub fn slow_machine() -> (m: StandardMachine)
    ensures
        m@ == (seq![(1int, (0int, 0int))], seq![(1int, (1int, 0int))], 10int),
{
    let m = standard_machine(
        vec![StandardMachineInput { cost: 1, relative_location: Vector::new(0, 0) }],
        vec![StandardMachineOutput { amount: 1, relative_location: Vector::new(1, 0) }],
        10,
    );
    assert(m@.0 =~= seq![(1int, (0int, 0int))]);
    assert(m@.1 =~= seq![(1int, (1int, 0int))]);
    m
}

/// A generator: no inputs, one output of 1 at (1, 0), cycle 1.
pub fn material_generator() -> (m: StandardMachine)
    ensures
        m@ == (Seq::<(int, (int, int))>::empty(), seq![(1int, (1int, 0int))], 1int),
{
    let m = standard_machine(
        Vec::new(),
        vec![StandardMachineOutput { amount: 1, relative_location: Vector::new(1, 0) }],
        1,
    );
    assert(m@.0 =~= Seq::<(int, (int, int))>::empty());
    assert(m@.1 =~= seq![(1int, (1int, 0int))]);
    m
}

/// A consumer: one input of cost 1 at (0, 0), no outputs, cycle 1.
pub fn consumer() -> (m: StandardMachine)
    ensures
        m@ == (seq![(1int, (0int, 0int))], Seq::<(int, (int, int))>::empty(), 1int),
{
    let m = standard_machine(
        vec![StandardMachineInput { cost: 1, relative_location: Vector::new(0, 0) }],
        Vec::new(),
        1,
    );
    assert(m@.0 =~= seq![(1int, (0int, 0int))]);
    assert(m@.1 =~= Seq::<(int, (int, int))>::empty());
    m
}


/// The fastest a machine outputs: `RATE_DIVISOR / min_output_cycle_length`.
pub open spec fn machine_max_output_rate(m: MachineModel) -> int {
    sim_divisor() / m.2
}

/// The smaller of two integers, the first on a tie.
pub open spec fn min_int(a: int, b: int) -> int {
    if b < a {
        b
    } else {
        a
    }
}

/// The larger of two integers.
pub open spec fn max_int(a: int, b: int) -> int {
    if b > a {
        b
    } else {
        a
    }
}

/// The output rate allowed by the first `n` inputs: the maximum output rate, lowered to
/// `rate / cost` for each of those inputs.
pub open spec fn rate_allowed_by_inputs(m: MachineModel, rates: Seq<i64>, n: nat) -> int
    decreases n,
{
    if n == 0 {
        machine_max_output_rate(m)
    } else {
        min_int(
            rate_allowed_by_inputs(m, rates, (n - 1) as nat),
            trunc_div(rates[n - 1] as int, m.0[n - 1].0),
        )
    }
}

/// The output rate needed for output `i` to reach `rates[i]`: the rate divided by the amount,
/// rounded up.
pub open spec fn rate_needed_for_output(m: MachineModel, rates: Seq<i64>, i: int) -> int {
    trunc_div(rates[i] + m.1[i].0 - 1, m.1[i].0)
}

/// The largest of `rate_needed_for_output` over the first `n >= 1` outputs.
pub open spec fn max_rate_needed(m: MachineModel, rates: Seq<i64>, n: nat) -> int
    decreases n,
{
    if n <= 1 {
        rate_needed_for_output(m, rates, 0)
    } else {
        max_int(max_rate_needed(m, rates, (n - 1) as nat), rate_needed_for_output(m, rates, n - 1))
    }
}

/// The number of pairs when zipping sequences of lengths `a` and `b`.
pub open spec fn zip_len(a: nat, b: nat) -> nat {
    if a < b {
        a
    } else {
        b
    }
}

/// The output rate needed to reach the given output rates; with nothing to reach, the maximum.
pub open spec fn min_output_rate_to_produce_spec(m: MachineModel, rates: Seq<i64>) -> int {
    let n = zip_len(rates.len(), m.1.len());
    if n == 0 {
        machine_max_output_rate(m)
    } else {
        max_rate_needed(m, rates, n)
    }
}

proof fn lemma_rounded_up_rate(x: int, a: int)
    requires
        a > 0,
    ensures
        trunc_div(x + a - 1, a) * a >= x,
        x >= 0 ==> (trunc_div(x + a - 1, a) - 1) * a < x,
{
    let y = x + a - 1;
    if y >= 0 {
        let q = y / a;
        vstd::arithmetic::div_mod::lemma_fundamental_div_mod(y, a);
        vstd::arithmetic::div_mod::lemma_mod_bound(y, a);
        assert(q * a == a * q) by (nonlinear_arith);
        assert((q - 1) * a == q * a - a) by (nonlinear_arith);
    } else {
        let z = -y;
        let q = z / a;
        vstd::arithmetic::div_mod::lemma_fundamental_div_mod(z, a);
        vstd::arithmetic::div_mod::lemma_mod_bound(z, a);
        assert((-q) * a == -(a * q)) by (nonlinear_arith);
    }
}

proof fn lemma_max_rate_needed_is_largest(m: MachineModel, rates: Seq<i64>, k: nat)
    requires
        k >= 1,
    ensures
        forall|i: int| 0 <= i < k ==> max_rate_needed(m, rates, k) >= #[trigger] rate_needed_for_output(m, rates, i),
        exists|i: int| 0 <= i < k && max_rate_needed(m, rates, k) == #[trigger] rate_needed_for_output(m, rates, i),
    decreases k,
{
    if k == 1 {
        assert(max_rate_needed(m, rates, k) == rate_needed_for_output(m, rates, 0));
    } else {
        lemma_max_rate_needed_is_largest(m, rates, (k - 1) as nat);
        let last = rate_needed_for_output(m, rates, k - 1);
        if max_rate_needed(m, rates, (k - 1) as nat) < last {
            assert(max_rate_needed(m, rates, k) == last);
        }
    }
}

/// The output rate that `min_input_rates_to_produce` asks its inputs for reaches every output
/// rate asked for: times each considered output's amount it is at least that output's rate;
/// and, where the rates asked for are not negative, it is the least rate that does, one
/// output needing all of it.
pub proof fn law_min_output_rate_reaches_every_output(m: MachineModel, rates: Seq<i64>)
    requires
        forall|i: int| 0 <= i < zip_len(rates.len(), m.1.len()) ==> #[trigger] m.1[i].0 > 0,
    ensures
        forall|i: int|
            0 <= i < zip_len(rates.len(), m.1.len()) ==> min_output_rate_to_produce_spec(m, rates)
                * #[trigger] m.1[i].0 >= rates[i],
        zip_len(rates.len(), m.1.len()) > 0 && (forall|i: int|
            0 <= i < zip_len(rates.len(), m.1.len()) ==> #[trigger] rates[i] >= 0) ==> exists|i: int|
            0 <= i < zip_len(rates.len(), m.1.len()) && (min_output_rate_to_produce_spec(m, rates)
                - 1) * #[trigger] m.1[i].0 < rates[i],
{
    let n = zip_len(rates.len(), m.1.len());
    if n > 0 {
        let r = min_output_rate_to_produce_spec(m, rates);
        lemma_max_rate_needed_is_largest(m, rates, n);
        assert forall|i: int| 0 <= i < n implies r * #[trigger] m.1[i].0 >= rates[i] by {
            let need = rate_needed_for_output(m, rates, i);
            let a = m.1[i].0;
            lemma_rounded_up_rate(rates[i] as int, a);
            assert(r >= need);
            assert(r * a >= need * a) by (nonlinear_arith)
                requires
                    r >= need,
                    a > 0,
            ;
        }
        if forall|i: int| 0 <= i < n ==> #[trigger] rates[i] >= 0 {
            let i0 = choose|i: int| 0 <= i < n && r == #[trigger] rate_needed_for_output(m, rates, i);
            lemma_rounded_up_rate(rates[i0] as int, m.1[i0].0);
            assert(rates[i0] >= 0);
        }
    }
}

/// The output rate that input rates allow is held back by every input considered: it is at
/// most the machine's fastest rate and at most each considered input's rate divided by its
/// cost, and it is one of these, so no input's limit is skipped.
pub proof fn law_rate_allowed_is_the_tightest_limit(m: MachineModel, rates: Seq<i64>, n: nat)
    ensures
        rate_allowed_by_inputs(m, rates, n) <= machine_max_output_rate(m),
        forall|i: int| 0 <= i < n ==> rate_allowed_by_inputs(m, rates, n) <= trunc_div(
            #[trigger] rates[i] as int,
            m.0[i].0,
        ),
        rate_allowed_by_inputs(m, rates, n) == machine_max_output_rate(m) || exists|i: int|
            0 <= i < n && rate_allowed_by_inputs(m, rates, n) == trunc_div(#[trigger] rates[i] as int, m.0[i].0),
    decreases n,
{
    if n > 0 {
        law_rate_allowed_is_the_tightest_limit(m, rates, (n - 1) as nat);
        let before = rate_allowed_by_inputs(m, rates, (n - 1) as nat);
        let last = trunc_div(rates[n - 1] as int, m.0[n - 1].0);
        if last < before {
            assert(rate_allowed_by_inputs(m, rates, n) == trunc_div(rates[n - 1] as int, m.0[n - 1].0));
        } else if before != machine_max_output_rate(m) {
            let i = choose|i: int| 0 <= i < n - 1 && before == trunc_div(#[trigger] rates[i] as int, m.0[i].0);
            assert(rate_allowed_by_inputs(m, rates, n) == trunc_div(rates[i] as int, m.0[i].0));
        }
    }
}

/// Where a machine sits on the map: position and facing in quarter turns.
#[derive(Clone, PartialEq, Eq, Hash, Debug, Structural)]
pub struct MachineMapState {
    pub position: Vector,
    pub facing: u8,
}

/// A relative location moved onto the map by a machine's map state.
pub open spec fn placed_location(location: (int, int), state: MachineMapState) -> (int, int) {
    add_points(rotate_point(location, (state.facing % 4) as int), state.position@)
}

/// Placing each of the given relative locations stays inside `i64`.
pub open spec fn placements_fit(locations: Seq<(int, (int, int))>, state: MachineMapState) -> bool {
    forall|i: int|
        0 <= i < locations.len() ==> {
            &&& point_in_i64(rotate_point(#[trigger] locations[i].1, (state.facing % 4) as int))
            &&& point_in_i64(placed_location(locations[i].1, state))
        }
}

impl StandardMachine {
    /// The machine's properties: limited sizes, positive costs, amounts and cycle.
    pub fn check_valid(&self)
        ensures
            machine_model_valid(self@),
    {
        proof {
            use_type_invariant(self);
        }
    }

    pub fn num_inputs(&self) -> (r: usize)
        ensures
            r == self@.0.len(),
    {
        self.inputs.len()
    }

    pub fn num_outputs(&self) -> (r: usize)
        ensures
            r == self@.1.len(),
    {
        self.outputs.len()
    }

    fn max_output_rate(&self) -> (r: Number)
        ensures
            r == machine_max_output_rate(self@),
    {
        proof {
            use_type_invariant(self);
        }
        RATE_DIVISOR / self.min_output_cycle_length
    }

    fn max_output_rate_with_inputs(&self, input_rates: &[Number]) -> (r: Number)
        ensures
            r == rate_allowed_by_inputs(
                self@,
                input_rates@,
                zip_len(input_rates@.len(), self@.0.len()),
            ),
    {
        proof {
            use_type_invariant(self);
        }
        let mut ideal_rate = self.max_output_rate();
        let n = if input_rates.len() < self.inputs.len() {
            input_rates.len()
        } else {
            self.inputs.len()
        };
        let mut i: usize = 0;
        while i < n
            invariant
                i <= n,
                n == zip_len(input_rates@.len(), self@.0.len()),
                n <= input_rates.len(),
                n <= self.inputs.len(),
                forall|j: int| 0 <= j < self.inputs.len() ==> #[trigger] self.inputs[j].cost > 0,
                ideal_rate == rate_allowed_by_inputs(self@, input_rates@, i as nat),
            decreases n - i,
        {
            let limited = input_rates[i] / self.inputs[i].cost;
            assert(self@.0[i as int].0 == self.inputs[i as int].cost);
            if limited < ideal_rate {
                ideal_rate = limited;
            }
            i = i + 1;
        }
        ideal_rate
    }

    fn min_output_rate_to_produce(&self, output_rates: &[Number]) -> (r: Number)
        requires
            forall|i: int|
                0 <= i < zip_len(output_rates@.len(), self@.1.len()) ==> output_rates[i]
                    + #[trigger] self@.1[i].0 <= i64::MAX,
        ensures
            r == min_output_rate_to_produce_spec(self@, output_rates@),
            forall|i: int|
                0 <= i < zip_len(output_rates@.len(), self@.1.len()) ==> r * #[trigger] self@.1[i].0
                    >= output_rates[i],
    {
        proof {
            use_type_invariant(self);
            assert forall|i: int| 0 <= i < zip_len(output_rates@.len(), self@.1.len()) implies #[trigger] self@.1[i].0 > 0 by {
                assert(self@.1[i].0 == self.outputs[i].amount);
            }
            law_min_output_rate_reaches_every_output(self@, output_rates@);
        }
        let n = if output_rates.len() < self.outputs.len() {
            output_rates.len()
        } else {
            self.outputs.len()
        };
        if n == 0 {
            return self.max_output_rate();
        }
        assert(self@.1[0].0 == self.outputs[0].amount);
        let mut best = (output_rates[0] + self.outputs[0].amount - 1) / self.outputs[0].amount;
        let mut i: usize = 1;
        while i < n
            invariant
                1 <= i <= n,
                n == zip_len(output_rates@.len(), self@.1.len()),
                n <= output_rates.len(),
                n <= self.outputs.len(),
                forall|j: int| 0 <= j < self.outputs.len() ==> #[trigger] self.outputs[j].amount > 0,
                forall|j: int|
                    0 <= j < n ==> output_rates[j] + #[trigger] self@.1[j].0 <= i64::MAX,
                best == max_rate_needed(self@, output_rates@, i as nat),
            decreases n - i,
        {
            assert(self@.1[i as int].0 == self.outputs[i as int].amount);
            let needed = (output_rates[i] + self.outputs[i].amount - 1) / self.outputs[i].amount;
            if needed > best {
                best = needed;
            }
            i = i + 1;
        }
        best
    }

    /// The highest output rates that the given input rates support.
    pub fn max_output_rates(&self, input_rates: &[Number]) -> (r: Vec<Number>)
        requires
            forall|i: int|
                0 <= i < self@.1.len() ==> in_i64(
                    rate_allowed_by_inputs(
                        self@,
                        input_rates@,
                        zip_len(input_rates@.len(), self@.0.len()),
                    ) * #[trigger] self@.1[i].0,
                ),
        ensures
            r.len() == self@.1.len(),
            forall|i: int|
                0 <= i < r.len() ==> r[i] == rate_allowed_by_inputs(
                    self@,
                    input_rates@,
                    zip_len(input_rates@.len(), self@.0.len()),
                ) * #[trigger] self@.1[i].0,
    {
        let ideal_rate = self.max_output_rate_with_inputs(input_rates);
        let mut result: Vec<Number> = Vec::new();
        let mut i: usize = 0;
        while i < self.outputs.len()
            invariant
                i <= self.outputs.len(),
                result.len() == i,
                ideal_rate == rate_allowed_by_inputs(
                    self@,
                    input_rates@,
                    zip_len(input_rates@.len(), self@.0.len()),
                ),
                forall|j: int|
                    0 <= j < self@.1.len() ==> in_i64(ideal_rate * #[trigger] self@.1[j].0),
                forall|j: int| 0 <= j < i ==> result[j] == ideal_rate * #[trigger] self@.1[j].0,
            decreases self.outputs.len() - i,
        {
            assert(self@.1[i as int].0 == self.outputs[i as int].amount);
            result.push(ideal_rate * self.outputs[i].amount);
            i = i + 1;
        }
        result
    }

    /// The lowest input rates that produce the given output rates.
    pub fn min_input_rates_to_produce(&self, output_rates: &[Number]) -> (r: Vec<Number>)
        requires
            forall|i: int|
                0 <= i < zip_len(output_rates@.len(), self@.1.len()) ==> output_rates[i]
                    + #[trigger] self@.1[i].0 <= i64::MAX,
            forall|i: int|
                0 <= i < self@.0.len() ==> in_i64(
                    min_output_rate_to_produce_spec(self@, output_rates@) * #[trigger] self@.0[i].0,
                ),
        ensures
            r.len() == self@.0.len(),
            forall|i: int|
                0 <= i < r.len() ==> r[i] == min_output_rate_to_produce_spec(self@, output_rates@)
                    * #[trigger] self@.0[i].0,
            forall|i: int|
                0 <= i < zip_len(output_rates@.len(), self@.1.len()) ==> min_output_rate_to_produce_spec(
                    self@,
                    output_rates@,
                ) * #[trigger] self@.1[i].0 >= output_rates[i],
    {
        let ideal_rate = self.min_output_rate_to_produce(output_rates);
        let mut result: Vec<Number> = Vec::new();
        let mut i: usize = 0;
        while i < self.inputs.len()
            invariant
                i <= self.inputs.len(),
                result.len() == i,
                ideal_rate == min_output_rate_to_produce_spec(self@, output_rates@),
                forall|j: int|
                    0 <= j < self@.0.len() ==> in_i64(ideal_rate * #[trigger] self@.0[j].0),
                forall|j: int| 0 <= j < i ==> result[j] == ideal_rate * #[trigger] self@.0[j].0,
            decreases self.inputs.len() - i,
        {
            assert(self@.0[i as int].0 == self.inputs[i as int].cost);
            result.push(ideal_rate * self.inputs[i].cost);
            i = i + 1;
        }
        result
    }

    /// The map positions of the machine's inputs.
    pub fn input_locations(&self, state: MachineMapState) -> (r: Vec<Vector>)
        requires
            placements_fit(self@.0, state),
        ensures
            r.len() == self@.0.len(),
            forall|i: int|
                0 <= i < r.len() ==> r[i]@ == placed_location(#[trigger] self@.0[i].1, state),
    {
        let mut result: Vec<Vector> = Vec::new();
        let mut i: usize = 0;
        while i < self.inputs.len()
            invariant
                i <= self.inputs.len(),
                result.len() == i,
                placements_fit(self@.0, state),
                forall|j: int|
                    0 <= j < i ==> result[j]@ == placed_location(#[trigger] self@.0[j].1, state),
            decreases self.inputs.len() - i,
        {
            assert(self@.0[i as int].1 == self.inputs[i as int].relative_location@);
            let turned = rotate_90(self.inputs[i].relative_location, state.facing);
            result.push(turned.plus(state.position));
            i = i + 1;
        }
        result
    }

    /// The map positions reported for the machine's outputs: the same positions as its inputs.
    pub fn output_locations(&self, state: MachineMapState) -> (r: Vec<Vector>)
        requires
            placements_fit(self@.0, state),
        ensures
            r.len() == self@.0.len(),
            forall|i: int|
                0 <= i < r.len() ==> r[i]@ == placed_location(#[trigger] self@.0[i].1, state),
    {
        self.input_locations(state)
    }
}


#[derive(Copy, Clone, PartialEq, Eq, Hash, Debug, Default, Structural)]
struct MachineMaterialsStateInput {
    storage_at_pattern_start: Number,
}

/// What a machine holds: its current output pattern and, per input, the material stored when
/// that input's pattern started.
#[derive(PartialEq, Eq, Hash, Debug)]
pub struct MachineMaterialsState {
    current_output_pattern: FlowPattern,
    inputs: Vec<MachineMaterialsStateInput>,
}

impl View for MachineMaterialsState {
    /// (current output pattern, storage per input)
    type V = ((int, int), Seq<int>);

    closed spec fn view(&self) -> ((int, int), Seq<int>) {
        (
            self.current_output_pattern@,
            self.inputs@.map_values(
                |input: MachineMaterialsStateInput| input.storage_at_pattern_start as int,
            ),
        )
    }
}

impl Clone for MachineMaterialsState {
    fn clone(&self) -> (r: MachineMaterialsState)
        ensures
            r@ == self@,
    {
        let inputs = self.inputs.clone();
        assert(inputs@ =~= self.inputs@);
        MachineMaterialsState { current_output_pattern: self.current_output_pattern, inputs }
    }
}

impl MachineMaterialsState {
    /// Nothing stored and no output, with one entry per machine input.
    pub fn empty(machine: &StandardMachine) -> (r: MachineMaterialsState)
        ensures
            r@ == ((0int, 0int), Seq::new(machine@.0.len(), |i: int| 0int)),
    {
        let n = machine.num_inputs();
        let mut inputs: Vec<MachineMaterialsStateInput> = Vec::new();
        let mut i: usize = 0;
        while i < n
            invariant
                i <= n,
                inputs.len() == i,
                forall|j: int| 0 <= j < i ==> #[trigger] inputs[j].storage_at_pattern_start == 0,
            decreases n - i,
        {
            inputs.push(MachineMaterialsStateInput { storage_at_pattern_start: 0 });
            i = i + 1;
        }
        let r = MachineMaterialsState { current_output_pattern: FlowPattern::default(), inputs };
        assert(r@.1 =~= Seq::new(machine@.0.len(), |i: int| 0int));
        r
    }
}

impl StandardMachine {
    /// The state after input `changed_index` switches pattern at `change_time`: that input's
    /// storage gains what its old pattern disbursed before `change_time`.
    pub fn with_input_changed(
        &self,
        old_state: MachineMaterialsState,
        change_time: Number,
        old_input_patterns: &[FlowPattern],
        changed_index: usize,
        _new_pattern: FlowPattern,
    ) -> (r: MachineMaterialsState)
        requires
            changed_index < old_state@.1.len(),
            changed_index < old_input_patterns.len(),
            sim_progress_fits(old_input_patterns[changed_index as int]@, change_time as int),
            in_i64(
                old_state@.1[changed_index as int] + sim_disbursed_before(
                    old_input_patterns[changed_index as int]@,
                    change_time as int,
                ),
            ),
        ensures
            r@ == (
                old_state@.0,
                old_state@.1.update(
                    changed_index as int,
                    old_state@.1[changed_index as int] + sim_disbursed_before(
                        old_input_patterns[changed_index as int]@,
                        change_time as int,
                    ),
                ),
            ),
    {
        let mut new_state = old_state;
        let added = old_input_patterns[changed_index].num_disbursed_before(change_time);
        let old_storage = new_state.inputs[changed_index].storage_at_pattern_start;
        new_state.inputs.set(
            changed_index,
            MachineMaterialsStateInput { storage_at_pattern_start: old_storage + added },
        );
        assert(new_state@.1 =~= old_state@.1.update(
            changed_index as int,
            old_state@.1[changed_index as int] + sim_disbursed_before(
                old_input_patterns[changed_index as int]@,
                change_time as int,
            ),
        ));
        new_state
    }
}

/// The rates of a list of patterns.
pub open spec fn pattern_rates(patterns: Seq<FlowPattern>) -> Seq<i64> {
    patterns.map_values(|p: FlowPattern| p.rate)
}

/// The latest start among the first `n` patterns; 0 when `n` is 0.
pub open spec fn latest_start(patterns: Seq<FlowPattern>, n: nat) -> int
    decreases n,
{
    if n == 0 {
        0
    } else if n == 1 {
        patterns[0].start_time as int
    } else {
        max_int(latest_start(patterns, (n - 1) as nat), patterns[n - 1].start_time as int)
    }
}

/// The time of the latest input change: the latest start of all input patterns, or 0.
pub open spec fn last_input_change(patterns: Seq<FlowPattern>) -> int {
    latest_start(patterns, patterns.len())
}

/// The rate a machine can output with the given input patterns.
pub open spec fn ideal_output_rate(m: MachineModel, patterns: Seq<FlowPattern>) -> int {
    rate_allowed_by_inputs(m, pattern_rates(patterns), zip_len(patterns.len(), m.0.len()))
}

/// The earliest time the machine may switch to a new output pattern after its inputs last
/// changed at `change`: not before one full cycle after its last output before `change`.
pub open spec fn switch_time(m: MachineModel, s: ((int, int), Seq<int>), change: int) -> int {
    match sim_last_disbursement(s.0, change) {
        Some(t) => max_int(change, t + m.2),
        None => change,
    }
}

/// How many items input `i` must still deliver, beyond its ideal rate, before output can begin:
/// one less than its cost, minus what was stored when its pattern started.
pub open spec fn needed_from_input(m: MachineModel, s: ((int, int), Seq<int>), i: int) -> int {
    m.0[i].0 - 1 - s.1[i]
}

/// The number of inputs taken into account: those with a cost, a pattern and a stored amount.
pub open spec fn inputs_considered(
    m: MachineModel,
    s: ((int, int), Seq<int>),
    patterns: Seq<FlowPattern>,
) -> nat {
    zip_len(zip_len(patterns.len(), m.0.len()), s.1.len())
}

/// The time from which the first `n` inputs always supply enough, and never before `change`.
pub open spec fn inputs_ready_time(
    m: MachineModel,
    s: ((int, int), Seq<int>),
    patterns: Seq<FlowPattern>,
    change: int,
    n: nat,
) -> int
    decreases n,
{
    if n == 0 {
        change
    } else {
        max_int(
            inputs_ready_time(m, s, patterns, change, (n - 1) as nat),
            sim_always_at_least_from(
                patterns[n - 1]@,
                needed_from_input(m, s, n - 1),
            ).unwrap(),
        )
    }
}

/// When the machine's next output pattern begins.
pub open spec fn output_begin_time(
    m: MachineModel,
    s: ((int, int), Seq<int>),
    patterns: Seq<FlowPattern>,
) -> int {
    let change = last_input_change(patterns);
    let switch = switch_time(m, s, change);
    if ideal_output_rate(m, patterns) > 0 {
        max_int(switch, inputs_ready_time(m, s, patterns, change, inputs_considered(m, s, patterns)))
    } else {
        switch
    }
}

/// The machine's next output pattern, as (start, rate).
pub open spec fn next_output_pattern(
    m: MachineModel,
    s: ((int, int), Seq<int>),
    patterns: Seq<FlowPattern>,
) -> (int, int) {
    (output_begin_time(m, s, patterns), ideal_output_rate(m, patterns))
}

/// Every computation of `current_outputs_and_next_change` stays inside `i64`.
pub open spec fn outputs_computation_fits(
    m: MachineModel,
    s: ((int, int), Seq<int>),
    patterns: Seq<FlowPattern>,
) -> bool {
    let change = last_input_change(patterns);
    &&& (change > s.0.0 && s.0.1 > 0) ==> {
        &&& sim_progress_fits(s.0, change)
        &&& in_i64(sim_last_disbursement(s.0, change).unwrap())
        &&& in_i64(sim_last_disbursement(s.0, change).unwrap() + m.2)
    }
    &&& ideal_output_rate(m, patterns) > 0 ==> forall|i: int|
        0 <= i < inputs_considered(m, s, patterns) ==> {
            let amount = #[trigger] needed_from_input(m, s, i);
            &&& in_i64(amount)
            &&& amount > 0 ==> {
                &&& in_i64(amount * sim_divisor())
                &&& amount * sim_divisor() + patterns[i].rate <= i64::MAX
                &&& in_i64(sim_always_at_least_from(patterns[i]@, amount).unwrap())
            }
        }
    &&& in_i64(s.0.0 + 1)
    &&& forall|j: int| 0 <= j < m.1.len() ==> in_i64(s.0.1 * #[trigger] m.1[j].0)
}

/// An output rate allowed by the inputs is positive only where each input's rate covers its
/// cost at least once.
proof fn lemma_positive_rate_needs_flowing_inputs(m: MachineModel, rates: Seq<i64>, n: nat, i: int)
    requires
        machine_model_valid(m),
        n <= rates.len(),
        n <= m.0.len(),
        0 <= i < n,
        rate_allowed_by_inputs(m, rates, n) > 0,
    ensures
        rates[i] > 0,
    decreases n,
{
    let q = trunc_div(rates[n - 1] as int, m.0[n - 1].0);
    if i == n - 1 {
        if rates[i] <= 0 {
            assert(q <= 0) by {
                if rates[i] < 0 {
                    assert((-rates[i]) / m.0[i].0 >= 0) by (nonlinear_arith)
                        requires
                            -rates[i] > 0,
                            m.0[i].0 > 0,
                    ;
                }
            }
        }
    } else {
        lemma_positive_rate_needs_flowing_inputs(m, rates, (n - 1) as nat, i);
    }
}

impl StandardMachine {
    fn input_rates(patterns: &[FlowPattern]) -> (r: Vec<Number>)
        ensures
            r@ == pattern_rates(patterns@),
    {
        let mut rates: Vec<Number> = Vec::new();
        let mut i: usize = 0;
        while i < patterns.len()
            invariant
                i <= patterns.len(),
                rates@ == pattern_rates(patterns@.take(i as int)),
            decreases patterns.len() - i,
        {
            rates.push(patterns[i].rate);
            assert(pattern_rates(patterns@.take(i + 1)) =~= pattern_rates(patterns@.take(i as int)).push(patterns[i as int].rate));
            i = i + 1;
        }
        assert(patterns@.take(patterns.len() as int) =~= patterns@);
        rates
    }

    fn last_change_time(patterns: &[FlowPattern]) -> (r: Number)
        ensures
            r == last_input_change(patterns@),
    {
        if patterns.len() == 0 {
            return 0;
        }
        let mut latest = patterns[0].start_time;
        let mut i: usize = 1;
        while i < patterns.len()
            invariant
                1 <= i <= patterns.len(),
                latest == latest_start(patterns@, i as nat),
            decreases patterns.len() - i,
        {
            if patterns[i].start_time > latest {
                latest = patterns[i].start_time;
            }
            i = i + 1;
        }
        latest
    }

    /// The outputs the machine gives now, and, where its output pattern is about to change, when
    /// and into which state.
    ///
    /// The current outputs follow the current output pattern, one time unit later, at each
    /// output's amount times its rate. The next pattern runs at the rate the inputs allow, from
    /// when the machine may switch (one cycle after its last output before the latest input
    /// change) and, where it outputs at all, from when every input supplies enough.
    pub fn current_outputs_and_next_change(
        &self,
        state: MachineMaterialsState,
        input_patterns: &[FlowPattern],
    ) -> (r: (Vec<FlowPattern>, Option<(Number, MachineMaterialsState)>))
        requires
            outputs_computation_fits(self@, state@, input_patterns@),
        ensures
            r.0.len() == self@.1.len(),
            forall|j: int|
                0 <= j < r.0.len() ==> (#[trigger] r.0[j])@ == (
                    state@.0.0 + 1,
                    state@.0.1 * self@.1[j].0,
                ),
            same_flow(next_output_pattern(self@, state@, input_patterns@), state@.0) ==> r.1
                is None,
            !same_flow(next_output_pattern(self@, state@, input_patterns@), state@.0) ==> (
            r.1 matches Some((t, new_state)) && t == switch_time(
                self@,
                state@,
                last_input_change(input_patterns@),
            ) && new_state@ == (next_output_pattern(self@, state@, input_patterns@), state@.1)),
            output_begin_time(self@, state@, input_patterns@) >= last_input_change(input_patterns@),
            switch_time(self@, state@, last_input_change(input_patterns@)) >= last_input_change(
                input_patterns@,
            ),
    {
        proof {
            use_type_invariant(self);
        }
        let rates = Self::input_rates(input_patterns);
        let ideal_rate = self.max_output_rate_with_inputs(rates.as_slice());
        let last_change_time = Self::last_change_time(input_patterns);
        let time_to_switch_output = match state.current_output_pattern.last_disbursement_before(
            last_change_time,
        ) {
            Some(time) => {
                let after_cycle = time + self.min_output_cycle_length;
                if after_cycle > last_change_time {
                    after_cycle
                } else {
                    last_change_time
                }
            },
            None => last_change_time,
        };
        let mut time_to_begin_output = time_to_switch_output;
        if ideal_rate > 0 {
            let mut when_enough_inputs_to_begin_output = last_change_time;
            let n0 = if input_patterns.len() < self.inputs.len() {
                input_patterns.len()
            } else {
                self.inputs.len()
            };
            let n = if n0 < state.inputs.len() {
                n0
            } else {
                state.inputs.len()
            };
            let ghost m = self@;
            let ghost s = state@;
            assert(n == inputs_considered(m, s, input_patterns@));
            let mut i: usize = 0;
            while i < n
                invariant
                    i <= n,
                    n == inputs_considered(m, s, input_patterns@),
                    n <= input_patterns.len(),
                    n <= self.inputs.len(),
                    n <= state.inputs.len(),
                    m == self@,
                    s == state@,
                    machine_model_valid(m),
                    ideal_rate == ideal_output_rate(m, input_patterns@),
                    ideal_rate > 0,
                    outputs_computation_fits(m, s, input_patterns@),
                    when_enough_inputs_to_begin_output == inputs_ready_time(
                        m,
                        s,
                        input_patterns@,
                        last_change_time as int,
                        i as nat,
                    ),
                decreases n - i,
            {
                let pattern = input_patterns[i];
                let cost = self.inputs[i].cost;
                let stored = state.inputs[i].storage_at_pattern_start;
                proof {
                    assert(m.0[i as int].0 == cost);
                    assert(s.1[i as int] == stored);
                    let amount = needed_from_input(m, s, i as int);
                    assert(in_i64(amount));
                    lemma_positive_rate_needs_flowing_inputs(
                        m,
                        pattern_rates(input_patterns@),
                        zip_len(input_patterns@.len(), m.0.len()),
                        i as int,
                    );
                    assert(pattern_rates(input_patterns@)[i as int] == pattern.rate);
                }
                let amount = cost - 1 - stored;
                let min_start_time = match pattern.from_when_will_always_disburse_at_least_amount_plus_ideal_rate(
                    amount,
                ) {
                    Some(t) => t,
                    None => {
                        proof {
                            assert(false);
                        }
                        0
                    },
                };
                if min_start_time > when_enough_inputs_to_begin_output {
                    when_enough_inputs_to_begin_output = min_start_time;
                }
                i = i + 1;
            }
            if when_enough_inputs_to_begin_output > time_to_begin_output {
                time_to_begin_output = when_enough_inputs_to_begin_output;
            }
        }
        let output = FlowPattern { start_time: time_to_begin_output, rate: ideal_rate };
        let next_change = if output == state.current_output_pattern {
            None
        } else {
            let mut new_state = state.clone();
            new_state.current_output_pattern = output;
            Some((time_to_switch_output, new_state))
        };
        let mut current_outputs: Vec<FlowPattern> = Vec::new();
        let mut j: usize = 0;
        while j < self.outputs.len()
            invariant
                j <= self.outputs.len(),
                current_outputs.len() == j,
                outputs_computation_fits(self@, state@, input_patterns@),
                forall|k: int|
                    0 <= k < j ==> (#[trigger] current_outputs[k])@ == (
                        state@.0.0 + 1,
                        state@.0.1 * self@.1[k].0,
                    ),
            decreases self.outputs.len() - j,
        {
            assert(self@.1[j as int].0 == self.outputs[j as int].amount);
            current_outputs.push(
                FlowPattern {
                    start_time: state.current_output_pattern.start_time + 1,
                    rate: state.current_output_pattern.rate * self.outputs[j].amount,
                },
            );
            j = j + 1;
        }
        (current_outputs, next_change)
    }
}

/// What `with_input_changed` needs: the index names an input of both the state and the
/// patterns, and the new storage stays inside `i64`.
pub open spec fn input_change_fits(
    s: ((int, int), Seq<int>),
    change_time: int,
    patterns: Seq<FlowPattern>,
    index: int,
) -> bool {
    &&& 0 <= index < s.1.len()
    &&& index < patterns.len()
    &&& sim_progress_fits(patterns[index]@, change_time)
    &&& in_i64(s.1[index] + sim_disbursed_before(patterns[index]@, change_time))
}

fn fits_i64(x: i128) -> (r: bool)
    ensures
        r == in_i64(x as int),
{
    i64::MIN as i128 <= x && x <= i64::MAX as i128
}

/// The progress of a pattern at `time`, computed wide, and whether it fits.
fn progress_wide(p: FlowPattern, time: i64) -> (r: (bool, i128))
    ensures
        r.0 == sim_progress_fits(p@, time as int),
        r.0 ==> r.1 == sim_progress(p@, time as int),
{
    if time <= p.start_time {
        return (true, RATE_DIVISOR as i128 - 1);
    }
    let d = time as i128 - p.start_time as i128;
    proof {
        assert(0 < d <= 0xffff_ffff_ffff_ffff);
        assert(-0x7fff_ffff_ffff_ffff_8000_0000_0000_0000 <= d * (p.rate as i128)
            <= 0x7fff_ffff_ffff_fffe_8000_0000_0000_0001) by (nonlinear_arith)
            requires
                0 < d <= 0xffff_ffff_ffff_ffff,
                -0x8000_0000_0000_0000 <= p.rate <= 0x7fff_ffff_ffff_ffff,
        ;
    }
    let product = d * (p.rate as i128);
    let ok = fits_i64(d) && fits_i64(product) && product + RATE_DIVISOR as i128 <= i64::MAX as i128;
    if ok {
        (true, product + RATE_DIVISOR as i128 - 1)
    } else {
        (false, 0)
    }
}

impl StandardMachine {
    /// Whether `current_outputs_and_next_change` can run on these values inside `i64`.
    pub fn can_compute_outputs(
        &self,
        state: &MachineMaterialsState,
        input_patterns: &[FlowPattern],
    ) -> (r: bool)
        ensures
            r == outputs_computation_fits(self@, state@, input_patterns@),
    {
        proof {
            use_type_invariant(self);
        }
        let ghost m = self@;
        let ghost s = state@;
        let change = Self::last_change_time(input_patterns);
        let current = state.current_output_pattern;
        let mut first_ok = true;
        if change > current.start_time && current.rate > 0 {
            let (fits, progress) = progress_wide(current, change);
            if !fits {
                first_ok = false;
            } else {
                proof {
                    assert(progress >= 0) by (nonlinear_arith)
                        requires
                            progress == (change - current.start_time) * current.rate + sim_divisor()
                                - 1,
                            change - current.start_time > 0,
                            current.rate > 0,
                    ;
                }
                let last = change as i128 - 1 - (progress % RATE_DIVISOR as i128) / current.rate as i128;
                proof {
                    assert(sim_last_disbursement(s.0, change as int) == Some(last as int));
                    crate::arith::lemma_floor_div_bounds(progress as int, sim_divisor());
                    crate::arith::lemma_floor_div_monotone(
                        0,
                        (progress as int) % sim_divisor(),
                        current.rate as int,
                    );
                    crate::arith::lemma_floor_div_monotone(
                        (progress as int) % sim_divisor(),
                        sim_divisor(),
                        current.rate as int,
                    );
                    assert(sim_divisor() <= sim_divisor() * (current.rate as int)) by (nonlinear_arith)
                        requires
                            current.rate >= 1,
                    ;
                    crate::arith::lemma_floor_div_monotone(
                        sim_divisor(),
                        sim_divisor() * (current.rate as int),
                        current.rate as int,
                    );
                    crate::arith::lemma_floor_div_add_multiple(0, sim_divisor(), current.rate as int);
                }
                if !fits_i64(last) || !fits_i64(last + self.min_output_cycle_length as i128) {
                    first_ok = false;
                }
            }
        }
        let rates = Self::input_rates(input_patterns);
        let ideal_rate = self.max_output_rate_with_inputs(rates.as_slice());
        let mut second_ok = true;
        if ideal_rate > 0 {
            let n0 = if input_patterns.len() < self.inputs.len() {
                input_patterns.len()
            } else {
                self.inputs.len()
            };
            let n = if n0 < state.inputs.len() {
                n0
            } else {
                state.inputs.len()
            };
            let mut i: usize = 0;
            while i < n
                invariant
                    i <= n,
                    n == inputs_considered(m, s, input_patterns@),
                    n <= input_patterns.len(),
                    n <= self.inputs.len(),
                    n <= state.inputs.len(),
                    m == self@,
                    s == state@,
                    machine_model_valid(m),
                    ideal_rate == ideal_output_rate(m, input_patterns@),
                    ideal_rate > 0,
                    second_ok <==> forall|k: int|
                        0 <= k < i ==> {
                            let amount = #[trigger] needed_from_input(m, s, k);
                            &&& in_i64(amount)
                            &&& amount > 0 ==> {
                                &&& in_i64(amount * sim_divisor())
                                &&& amount * sim_divisor() + input_patterns@[k].rate <= i64::MAX
                                &&& in_i64(
                                    sim_always_at_least_from(input_patterns@[k]@, amount).unwrap(),
                                )
                            }
                        },
                decreases n - i,
            {
                let pattern = input_patterns[i];
                proof {
                    assert(m.0[i as int].0 == self.inputs[i as int].cost);
                    assert(s.1[i as int] == state.inputs[i as int].storage_at_pattern_start);
                    lemma_positive_rate_needs_flowing_inputs(
                        m,
                        pattern_rates(input_patterns@),
                        zip_len(input_patterns@.len(), m.0.len()),
                        i as int,
                    );
                    assert(pattern_rates(input_patterns@)[i as int] == pattern.rate);
                }
                let amount = self.inputs[i].cost as i128 - 1 - state.inputs[i].storage_at_pattern_start as i128;
                assert(amount == needed_from_input(m, s, i as int));
                let mut this_ok = fits_i64(amount);
                if this_ok && amount > 0 {
                    proof {
                        assert(amount * (RATE_DIVISOR as i128) <= 0x8000_0000_0000_0000 * 0x1_0000_0000) by (nonlinear_arith)
                            requires
                                0 < amount <= 0x7fff_ffff_ffff_ffff,
                                RATE_DIVISOR < 0x1_0000_0000,
                        ;
                    }
                    let scaled = amount * RATE_DIVISOR as i128;
                    if !fits_i64(scaled) || scaled + pattern.rate as i128 > i64::MAX as i128 {
                        this_ok = false;
                    } else {
                        proof {
                            assert(scaled + pattern.rate - 1 >= 0);
                            crate::arith::lemma_floor_div_monotone(
                                0,
                                (scaled + pattern.rate - 1) as int,
                                pattern.rate as int,
                            );
                            assert(i64::MAX as int <= (i64::MAX as int) * (pattern.rate as int)) by (
                            nonlinear_arith)
                                requires
                                    pattern.rate >= 1,
                            ;
                            crate::arith::lemma_floor_div_monotone(
                                (scaled + pattern.rate - 1) as int,
                                i64::MAX as int,
                                pattern.rate as int,
                            );
                            crate::arith::lemma_floor_div_monotone(
                                i64::MAX as int,
                                (i64::MAX as int) * (pattern.rate as int),
                                pattern.rate as int,
                            );
                            crate::arith::lemma_floor_div_add_multiple(
                                0,
                                i64::MAX as int,
                                pattern.rate as int,
                            );
                        }
                        let from = pattern.start_time as i128 + (scaled + pattern.rate as i128 - 1)
                            / pattern.rate as i128;
                        assert(sim_always_at_least_from(input_patterns@[i as int]@, amount as int)
                            == Some(from as int));
                        if !fits_i64(from) {
                            this_ok = false;
                        }
                    }
                }
                assert(this_ok == {
                    let a = needed_from_input(m, s, i as int);
                    &&& in_i64(a)
                    &&& a > 0 ==> {
                        &&& in_i64(a * sim_divisor())
                        &&& a * sim_divisor() + input_patterns@[i as int].rate <= i64::MAX
                        &&& in_i64(sim_always_at_least_from(input_patterns@[i as int]@, a).unwrap())
                    }
                });
                if !this_ok {
                    second_ok = false;
                }
                i = i + 1;
            }
        }
        let mut third_ok = current.start_time < i64::MAX;
        let mut j: usize = 0;
        while j < self.outputs.len()
            invariant
                j <= self.outputs.len(),
                m == self@,
                s == state@,
                current == state.current_output_pattern,
                third_ok <==> (in_i64(s.0.0 + 1) && forall|k: int|
                    0 <= k < j ==> in_i64(s.0.1 * #[trigger] m.1[k].0)),
            decreases self.outputs.len() - j,
        {
            proof {
                assert(m.1[j as int].0 == self.outputs[j as int].amount);
                assert(-0x8000_0000_0000_0000_0000_0000_0000_0000 <= (current.rate as i128) * (self.outputs[j as int].amount as i128) <= 0x7fff_ffff_ffff_ffff_ffff_ffff_ffff_ffff) by (nonlinear_arith)
                    requires
                        -0x8000_0000_0000_0000 <= current.rate <= 0x7fff_ffff_ffff_ffff,
                        -0x8000_0000_0000_0000 <= self.outputs[j as int].amount <= 0x7fff_ffff_ffff_ffff,
                ;
            }
            if !fits_i64(current.rate as i128 * self.outputs[j].amount as i128) {
                third_ok = false;
            }
            j = j + 1;
        }
        first_ok && second_ok && third_ok
    }

    /// Whether `with_input_changed` can run on these values inside `i64`.
    pub fn can_change_input(
        &self,
        state: &MachineMaterialsState,
        change_time: Number,
        old_input_patterns: &[FlowPattern],
        changed_index: usize,
    ) -> (r: bool)
        ensures
            r == input_change_fits(state@, change_time as int, old_input_patterns@, changed_index as int),
    {
        if changed_index >= state.inputs.len() || changed_index >= old_input_patterns.len() {
            return false;
        }
        let pattern = old_input_patterns[changed_index];
        let (fits, progress) = progress_wide(pattern, change_time);
        if !fits {
            return false;
        }
        let added = progress / RATE_DIVISOR as i128;
        proof {
            assert(added == sim_disbursed_before(pattern@, change_time as int));
        }
        fits_i64(state.inputs[changed_index].storage_at_pattern_start as i128 + added)
    }
}

/// An input of a node in a machines graph: its first pattern and later (time, pattern) changes.
#[derive(Clone, PartialEq, Eq, Hash, Debug)]
pub struct MachinesGraphInput {
    pub initial_value: FlowPattern,
    pub changes: Vec<(Number, FlowPattern)>,
}

impl MachinesGraphInput {
    /// No flow and no changes.
    pub fn new() -> (r: MachinesGraphInput)
        ensures
            r.initial_value@ == (0int, 0int),
            r.changes@.len() == 0,
    {
        MachinesGraphInput { initial_value: FlowPattern::default(), changes: Vec::new() }
    }
}

/// A machine in a graph, with its starting state, inputs, and where each output goes
/// (machine index, input index).
#[derive(Clone, PartialEq, Eq, Hash, Debug)]
pub struct MachinesGraphNode {
    pub machine: StandardMachine,
    pub initial_state: MachineMaterialsState,
    pub inputs: Vec<MachinesGraphInput>,
    pub output_locations: Vec<Option<(usize, usize)>>,
}

/// Machines connected output to input.
#[derive(Clone, PartialEq, Eq, Hash, Debug)]
pub struct MachinesGraph {
    pub nodes: Vec<MachinesGraphNode>,
}

/// Where output `index` goes, read from a list of (machine, input) pairs: nowhere past the end
/// of the list or for machine `-1`, and otherwise that pair taken as indices.
pub open spec fn output_destination(outputs: Seq<(i64, i64)>, index: int) -> Option<(usize, usize)> {
    if index < outputs.len() {
        if outputs[index].0 == -1 {
            None
        } else {
            Some((outputs[index].0 as usize, outputs[index].1 as usize))
        }
    } else {
        None
    }
}

/// A graph node built from a machine, an optional state and its output connections.
pub open spec fn node_built_from(
    node: MachinesGraphNode,
    machine: StandardMachine,
    state: Option<MachineMaterialsState>,
    outputs: Seq<(i64, i64)>,
) -> bool {
    &&& node.machine@ == machine@
    &&& node.initial_state@ == match state {
        Some(s) => s@,
        None => ((0int, 0int), Seq::new(machine@.0.len(), |i: int| 0int)),
    }
    &&& node.inputs.len() == machine@.0.len()
    &&& forall|j: int|
        0 <= j < node.inputs.len() ==> (#[trigger] node.inputs[j]).initial_value@ == (0int, 0int)
            && node.inputs[j].changes@.len() == 0
    &&& node.output_locations.len() == machine@.1.len()
    &&& forall|j: int|
        0 <= j < node.output_locations.len() ==> #[trigger] node.output_locations[j]
            == output_destination(outputs, j)
}

impl MachinesGraph {
    /// A graph with one node per entry: the machine, its state (empty when none is given), no
    /// input flows yet, and its outputs connected as listed.
    pub fn new(data: Vec<(StandardMachine, Option<MachineMaterialsState>, &[(i64, i64)])>) -> (g:
        MachinesGraph)
        ensures
            g.nodes.len() == data.len(),
            forall|i: int|
                0 <= i < data.len() ==> node_built_from(
                    #[trigger] g.nodes[i],
                    data[i].0,
                    data[i].1,
                    data[i].2@,
                ),
    {
        let mut nodes: Vec<MachinesGraphNode> = Vec::new();
        let mut i: usize = 0;
        while i < data.len()
            invariant
                i <= data.len(),
                nodes.len() == i,
                forall|k: int|
                    0 <= k < i ==> node_built_from(
                        #[trigger] nodes[k],
                        data[k].0,
                        data[k].1,
                        data[k].2@,
                    ),
            decreases data.len() - i,
        {
            let machine = data[i].0.clone();
            let outputs = data[i].2;
            let mut inputs: Vec<MachinesGraphInput> = Vec::new();
            let mut j: usize = 0;
            while j < machine.num_inputs()
                invariant
                    j <= machine@.0.len(),
                    inputs.len() == j,
                    forall|k: int|
                        0 <= k < j ==> (#[trigger] inputs[k]).initial_value@ == (0int, 0int)
                            && inputs[k].changes@.len() == 0,
                decreases machine@.0.len() - j,
            {
                inputs.push(MachinesGraphInput::new());
                j = j + 1;
            }
            let mut output_locations: Vec<Option<(usize, usize)>> = Vec::new();
            let mut j: usize = 0;
            while j < machine.num_outputs()
                invariant
                    j <= machine@.1.len(),
                    output_locations.len() == j,
                    forall|k: int|
                        0 <= k < j ==> #[trigger] output_locations[k] == output_destination(
                            outputs@,
                            k,
                        ),
                decreases machine@.1.len() - j,
            {
                let destination = if j < outputs.len() {
                    let (target, input) = outputs[j];
                    if target == -1 {
                        None
                    } else {
                        Some((target as usize, input as usize))
                    }
                } else {
                    None
                };
                output_locations.push(destination);
                j = j + 1;
            }
            let initial_state = match &data[i].1 {
                Some(state) => state.clone(),
                None => MachineMaterialsState::empty(&machine),
            };
            nodes.push(MachinesGraphNode { machine, initial_state, inputs, output_locations });
            i = i + 1;
        }
        MachinesGraph { nodes }
    }
}

} // verus!
