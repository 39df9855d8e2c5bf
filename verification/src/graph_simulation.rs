use vstd::prelude::*;
use crate::arith::in_i64;
use crate::simulation::{
    input_change_fits, last_input_change, next_output_pattern, outputs_computation_fits,
    same_flow, sim_disbursed_before, switch_time, FlowPattern, MachineModel,
    MachineMaterialsState, MachinesGraph, MachinesGraphInput, MachinesGraphNode, Number,
    StandardMachine,
};

verus! {

/// The most steps a machine's simulation takes before it is taken to be looping.
pub const MAX_SIMULATION_STEPS: u32 = 100;

/// The pattern history of an input or output: its first pattern and its (time, pattern)
/// changes.
pub type History = (FlowPattern, Seq<(i64, FlowPattern)>);

/// A machine's material state as mathematical values: (output pattern, storage per input).
pub type StateModel = ((int, int), Seq<int>);

/// The history of a graph input.
pub open spec fn history_of(input: MachinesGraphInput) -> History {
    (input.initial_value, input.changes@)
}

/// The histories of a list of graph inputs.
pub open spec fn histories(inputs: Seq<MachinesGraphInput>) -> Seq<History> {
    inputs.map_values(|input: MachinesGraphInput| history_of(input))
}

/// Where a machine's simulation stands between two events.
pub struct SimulationPoint {
    pub state: StateModel,
    pub patterns: Seq<FlowPattern>,
    pub outputs: Seq<History>,
    pub last_change: int,
    pub steps: int,
}

/// What one step of a machine's simulation comes to.
pub enum SimulationStep {
    /// No further event: the output histories are complete.
    Finished(Seq<History>),
    /// The simulation cannot go on: too many steps, an event not after the last one, or
    /// values outside `i64`.
    Stuck,
    /// The simulation goes on from the next point.
    Continues(SimulationPoint),
}

/// The first change in the list, from position `i` on, after time `last`.
pub open spec fn first_change_after(changes: Seq<(i64, FlowPattern)>, last: int, i: int) -> Option<int>
    decreases changes.len() - i,
{
    if i < 0 || i >= changes.len() {
        None
    } else if changes[i].0 > last {
        Some(changes[i].0 as int)
    } else {
        first_change_after(changes, last, i + 1)
    }
}

/// The pattern of the first change in the list, from position `i` on, at time `t`.
pub open spec fn change_at(changes: Seq<(i64, FlowPattern)>, t: int, i: int) -> Option<FlowPattern>
    decreases changes.len() - i,
{
    if i < 0 || i >= changes.len() {
        None
    } else if changes[i].0 == t {
        Some(changes[i].1)
    } else {
        change_at(changes, t, i + 1)
    }
}

/// The smaller of two optional times; a missing time does not count.
pub open spec fn earlier(a: Option<int>, b: Option<int>) -> Option<int> {
    match (a, b) {
        (Some(x), Some(y)) => Some(if y < x { y } else { x }),
        (Some(x), None) => Some(x),
        (None, y) => y,
    }
}

/// The earliest of the first changes after `last` of the first `k` inputs.
pub open spec fn earliest_input_change(inputs: Seq<History>, last: int, k: nat) -> Option<int>
    decreases k,
{
    if k == 0 {
        None
    } else {
        earlier(
            earliest_input_change(inputs, last, (k - 1) as nat),
            first_change_after(inputs[k - 1].1, last, 0),
        )
    }
}

/// When, and into which state, the machine's output pattern is about to change, if it is.
pub open spec fn personal_change(m: MachineModel, s: StateModel, patterns: Seq<FlowPattern>) -> Option<
    (int, StateModel),
> {
    let next = next_output_pattern(m, s, patterns);
    if same_flow(next, s.0) {
        None
    } else {
        Some((switch_time(m, s, last_input_change(patterns)), (next, s.1)))
    }
}

/// The state after input `index` switches pattern at `t`.
pub open spec fn state_after_input_change(
    s: StateModel,
    t: int,
    patterns: Seq<FlowPattern>,
    index: int,
) -> StateModel {
    (s.0, s.1.update(index, s.1[index] + sim_disbursed_before(patterns[index]@, t)))
}

/// The state and patterns after the first `k` inputs take their changes at time `t`, in input
/// order; nothing where a change cannot be computed.
pub open spec fn apply_input_changes(
    inputs: Seq<History>,
    t: int,
    s: StateModel,
    patterns: Seq<FlowPattern>,
    k: nat,
) -> Option<(StateModel, Seq<FlowPattern>)>
    decreases k,
{
    if k == 0 {
        Some((s, patterns))
    } else {
        match apply_input_changes(inputs, t, s, patterns, (k - 1) as nat) {
            None => None,
            Some(applied) => match change_at(inputs[k - 1].1, t, 0) {
                None => Some(applied),
                Some(p) => if input_change_fits(applied.0, t, applied.1, k - 1) {
                    Some(
                        (
                            state_after_input_change(applied.0, t, applied.1, k - 1),
                            applied.1.update(k - 1, p),
                        ),
                    )
                } else {
                    None
                },
            },
        }
    }
}

/// The patterns a machine in state `s` gives at its outputs.
pub open spec fn current_patterns(m: MachineModel, s: StateModel) -> Seq<FlowPattern> {
    Seq::new(
        m.1.len(),
        |j: int| FlowPattern { start_time: (s.0.0 + 1) as i64, rate: (s.0.1 * m.1[j].0) as i64 },
    )
}

/// The last pattern of a history.
pub open spec fn latest_pattern(h: History) -> FlowPattern {
    if h.1.len() > 0 {
        h.1.last().1
    } else {
        h.0
    }
}

/// A history with the pattern `p` recorded at time `t`, where it differs from the latest one.
pub open spec fn record_pattern(h: History, p: FlowPattern, t: int) -> History {
    if same_flow(p@, latest_pattern(h)@) {
        h
    } else {
        (h.0, h.1.push((t as i64, p)))
    }
}

/// One step of a machine's simulation: find the next event (a change of the machine's own
/// output pattern, or the first change of an input after the last event), apply the input
/// changes at that time in input order, then the machine's own change if it falls then, and
/// record the resulting output patterns where they changed.
pub open spec fn simulation_step(m: MachineModel, inputs: Seq<History>, p: SimulationPoint) -> SimulationStep {
    let steps = p.steps + 1;
    if steps >= MAX_SIMULATION_STEPS || !outputs_computation_fits(m, p.state, p.patterns) {
        SimulationStep::Stuck
    } else {
        let personal = personal_change(m, p.state, p.patterns);
        let personal_time = match personal {
            Some(c) => Some(c.0),
            None => None,
        };
        match earlier(personal_time, earliest_input_change(inputs, p.last_change, inputs.len())) {
            None => SimulationStep::Finished(p.outputs),
            Some(t) => if t <= p.last_change {
                SimulationStep::Stuck
            } else {
                match apply_input_changes(inputs, t, p.state, p.patterns, inputs.len()) {
                    None => SimulationStep::Stuck,
                    Some(applied) => {
                        let s = match personal {
                            Some(c) => if c.0 == t {
                                c.1
                            } else {
                                applied.0
                            },
                            None => applied.0,
                        };
                        if !outputs_computation_fits(m, s, applied.1) {
                            SimulationStep::Stuck
                        } else {
                            let news = current_patterns(m, s);
                            SimulationStep::Continues(
                                SimulationPoint {
                                    state: s,
                                    patterns: applied.1,
                                    outputs: Seq::new(
                                        p.outputs.len(),
                                        |j: int| record_pattern(p.outputs[j], news[j], t),
                                    ),
                                    last_change: t,
                                    steps,
                                },
                            )
                        }
                    },
                }
            },
        }
    }
}

/// The output histories the simulation comes to from point `p` within `fuel` steps.
pub open spec fn simulation_run(
    m: MachineModel,
    inputs: Seq<History>,
    p: SimulationPoint,
    fuel: nat,
) -> Option<Seq<History>>
    decreases fuel,
{
    if fuel == 0 {
        None
    } else {
        match simulation_step(m, inputs, p) {
            SimulationStep::Finished(outputs) => Some(outputs),
            SimulationStep::Stuck => None,
            SimulationStep::Continues(next) => simulation_run(m, inputs, next, (fuel - 1) as nat),
        }
    }
}

/// The first patterns of a list of histories.
pub open spec fn first_patterns(inputs: Seq<History>) -> Seq<FlowPattern> {
    inputs.map_values(|h: History| h.0)
}

/// The output histories of a machine `m` with initial state `s` and input histories `inputs`:
/// simulated from its initial state and the inputs' first patterns, through every change of
/// its inputs, until no event is left.
pub open spec fn machine_future(m: MachineModel, s: StateModel, inputs: Seq<History>) -> Option<
    Seq<History>,
> {
    let patterns = first_patterns(inputs);
    if !outputs_computation_fits(m, s, patterns) {
        None
    } else {
        let start = SimulationPoint {
            state: s,
            patterns,
            outputs: current_patterns(m, s).map_values(|p: FlowPattern| (p, Seq::empty())),
            last_change: -1,
            steps: 0,
        };
        simulation_run(m, inputs, start, MAX_SIMULATION_STEPS as nat)
    }
}

/// The output histories of a graph node.
pub open spec fn node_future(node: MachinesGraphNode) -> Option<Seq<History>> {
    machine_future(node.machine@, node.initial_state@, histories(node.inputs@))
}

proof fn lemma_failed_changes_stay_failed(
    inputs: Seq<History>,
    t: int,
    s: StateModel,
    patterns: Seq<FlowPattern>,
    k: nat,
    n: nat,
)
    requires
        k <= n,
        apply_input_changes(inputs, t, s, patterns, k) is None,
    ensures
        apply_input_changes(inputs, t, s, patterns, n) is None,
    decreases n - k,
{
    if k < n {
        lemma_failed_changes_stay_failed(inputs, t, s, patterns, k, (n - 1) as nat);
    }
}

/// A history whose changes come at strictly increasing times, none after `last`, each with a
/// pattern that differs from the one before it.
pub open spec fn history_records_changes(h: History, last: int) -> bool {
    forall|i: int|
        0 <= i < h.1.len() ==> {
            &&& (#[trigger] h.1[i]).0 <= last
            &&& i > 0 ==> h.1[i - 1].0 < h.1[i].0
            &&& !same_flow(h.1[i].1@, if i == 0 { h.0@ } else { h.1[i - 1].1@ })
        }
}

/// Every output history of a point records changes only, up to its last event.
pub open spec fn point_records_changes(p: SimulationPoint) -> bool {
    forall|j: int| 0 <= j < p.outputs.len() ==> history_records_changes(#[trigger] p.outputs[j], p.last_change)
}

proof fn lemma_first_change_in_range(changes: Seq<(i64, FlowPattern)>, last: int, i: int)
    ensures
        first_change_after(changes, last, i) matches Some(t) ==> in_i64(t) && t > last,
    decreases changes.len() - i,
{
    if 0 <= i < changes.len() && changes[i].0 <= last {
        lemma_first_change_in_range(changes, last, i + 1);
    }
}

proof fn lemma_first_change_is_first_pending(changes: Seq<(i64, FlowPattern)>, last: int, i: int)
    requires
        0 <= i,
    ensures
        first_change_after(changes, last, i) matches Some(t) ==> exists|k: int|
            i <= k < changes.len() && changes[k].0 == t && t > last && forall|j: int|
                i <= j < k ==> (#[trigger] changes[j]).0 <= last,
        first_change_after(changes, last, i) is None ==> forall|j: int|
            i <= j < changes.len() ==> (#[trigger] changes[j]).0 <= last,
    decreases changes.len() - i,
{
    if i < changes.len() && changes[i].0 <= last {
        lemma_first_change_is_first_pending(changes, last, i + 1);
        if let Some(t) = first_change_after(changes, last, i) {
            let k = choose|k: int|
                i + 1 <= k < changes.len() && changes[k].0 == t && t > last && forall|j: int|
                    i + 1 <= j < k ==> (#[trigger] changes[j]).0 <= last;
            assert forall|j: int| i <= j < k implies (#[trigger] changes[j]).0 <= last by {}
        }
    }
}

/// The next change of an input history after time `last` is its first pending one: the
/// earliest-listed change after `last`, every change listed before it being at or before
/// `last`; with none after `last`, there is none. Where the changes are listed in increasing
/// time, no change at all falls strictly between `last` and the next one.
pub proof fn law_next_change_is_first_pending(changes: Seq<(i64, FlowPattern)>, last: int)
    ensures
        first_change_after(changes, last, 0) matches Some(t) ==> exists|k: int|
            0 <= k < changes.len() && changes[k].0 == t && t > last && forall|j: int|
                0 <= j < k ==> (#[trigger] changes[j]).0 <= last,
        first_change_after(changes, last, 0) is None ==> forall|j: int|
            0 <= j < changes.len() ==> (#[trigger] changes[j]).0 <= last,
        (forall|a: int, b: int| 0 <= a < b < changes.len() ==> (#[trigger] changes[a]).0 < (#[trigger] changes[b]).0)
            ==> (first_change_after(changes, last, 0) matches Some(t) ==> forall|j: int|
            0 <= j < changes.len() ==> !(last < (#[trigger] changes[j]).0 < t)),
{
    lemma_first_change_is_first_pending(changes, last, 0);
    if (forall|a: int, b: int| 0 <= a < b < changes.len() ==> (#[trigger] changes[a]).0 < (#[trigger] changes[b]).0) {
        if let Some(t) = first_change_after(changes, last, 0) {
            let k = choose|k: int|
                0 <= k < changes.len() && changes[k].0 == t && t > last && forall|j: int|
                    0 <= j < k ==> (#[trigger] changes[j]).0 <= last;
            assert forall|j: int| 0 <= j < changes.len() implies !(last < (#[trigger] changes[j]).0 < t) by {
                if j > k {
                    assert(changes[k].0 < changes[j].0);
                }
            }
        }
    }
}

proof fn lemma_earliest_in_range(inputs: Seq<History>, last: int, k: nat)
    ensures
        earliest_input_change(inputs, last, k) matches Some(t) ==> in_i64(t),
    decreases k,
{
    if k > 0 {
        lemma_earliest_in_range(inputs, last, (k - 1) as nat);
        lemma_first_change_in_range(inputs[k - 1].1, last, 0);
    }
}

proof fn lemma_latest_start_in_range(patterns: Seq<FlowPattern>, n: nat)
    requires
        n <= patterns.len(),
    ensures
        in_i64(crate::simulation::latest_start(patterns, n)),
    decreases n,
{
    if n > 1 {
        lemma_latest_start_in_range(patterns, (n - 1) as nat);
    }
}

/// Recording a pattern keeps a history recording changes only, when it comes after the last
/// event at a time inside `i64`.
proof fn lemma_record_keeps_changes(h: History, p: FlowPattern, last: int, t: int)
    requires
        history_records_changes(h, last),
        last < t,
        in_i64(t),
    ensures
        history_records_changes(record_pattern(h, p, t), t),
{
    let r = record_pattern(h, p, t);
    assert forall|i: int| 0 <= i < r.1.len() implies {
        &&& (#[trigger] r.1[i]).0 <= t
        &&& i > 0 ==> r.1[i - 1].0 < r.1[i].0
        &&& !same_flow(r.1[i].1@, if i == 0 { r.0@ } else { r.1[i - 1].1@ })
    } by {
        if i < h.1.len() {
            assert(r.1[i] == h.1[i]);
            if i > 0 {
                assert(r.1[i - 1] == h.1[i - 1]);
            }
        } else {
            assert(i == h.1.len());
            if i > 0 {
                assert(r.1[i - 1] == h.1[i - 1]);
                assert(h.1[i - 1].0 <= last);
                assert(latest_pattern(h) == h.1[i - 1].1);
            }
        }
    }
}

proof fn lemma_step_keeps_changes(m: MachineModel, inputs: Seq<History>, p: SimulationPoint)
    requires
        point_records_changes(p),
    ensures
        simulation_step(m, inputs, p) matches SimulationStep::Continues(next) ==> point_records_changes(next),
{
    if let SimulationStep::Continues(next) = simulation_step(m, inputs, p) {
        let t = next.last_change;
        let personal = personal_change(m, p.state, p.patterns);
        let personal_time = match personal {
            Some(c) => Some(c.0),
            None => None::<int>,
        };
        let input_time = earliest_input_change(inputs, p.last_change, inputs.len());
        lemma_earliest_in_range(inputs, p.last_change, inputs.len());
        lemma_latest_start_in_range(p.patterns, p.patterns.len());
        assert(personal_time matches Some(x) ==> in_i64(x));
        assert(earlier(personal_time, input_time) == Some(t));
        assert(in_i64(t));
        let news = current_patterns(m, next.state);
        assert forall|j: int| 0 <= j < next.outputs.len() implies history_records_changes(
            #[trigger] next.outputs[j],
            next.last_change,
        ) by {
            assert(next.outputs[j] == record_pattern(p.outputs[j], news[j], t));
            lemma_record_keeps_changes(p.outputs[j], news[j], p.last_change, t);
        }
    }
}

/// In a history, the changes come at strictly increasing times, each with a pattern that
/// differs from the one before it.
pub open spec fn records_real_changes(h: History) -> bool {
    forall|i: int|
        0 <= i < h.1.len() ==> {
            &&& i > 0 ==> h.1[i - 1].0 < (#[trigger] h.1[i]).0
            &&& !same_flow(h.1[i].1@, if i == 0 { h.0@ } else { h.1[i - 1].1@ })
        }
}

proof fn lemma_bounded_changes_are_real(h: History, last: int)
    requires
        history_records_changes(h, last),
    ensures
        records_real_changes(h),
{
    assert forall|i: int| 0 <= i < h.1.len() implies {
        &&& i > 0 ==> h.1[i - 1].0 < (#[trigger] h.1[i]).0
        &&& !same_flow(h.1[i].1@, if i == 0 { h.0@ } else { h.1[i - 1].1@ })
    } by {
        assert(h.1[i].0 <= last);
    }
}

proof fn lemma_run_keeps_changes(m: MachineModel, inputs: Seq<History>, p: SimulationPoint, fuel: nat)
    requires
        point_records_changes(p),
    ensures
        simulation_run(m, inputs, p, fuel) matches Some(outputs) ==> forall|j: int|
            0 <= j < outputs.len() ==> records_real_changes(#[trigger] outputs[j]),
    decreases fuel,
{
    if fuel > 0 {
        lemma_step_keeps_changes(m, inputs, p);
        match simulation_step(m, inputs, p) {
            SimulationStep::Finished(outputs) => {
                assert(simulation_run(m, inputs, p, fuel) == Some(outputs));
                assert(outputs == p.outputs);
                assert forall|j: int| 0 <= j < outputs.len() implies records_real_changes(
                    #[trigger] outputs[j],
                ) by {
                    lemma_bounded_changes_are_real(p.outputs[j], p.last_change);
                }
            },
            SimulationStep::Stuck => {
                assert(simulation_run(m, inputs, p, fuel) is None);
            },
            SimulationStep::Continues(next) => {
                assert(simulation_run(m, inputs, p, fuel) == simulation_run(
                    m,
                    inputs,
                    next,
                    (fuel - 1) as nat,
                ));
                lemma_run_keeps_changes(m, inputs, next, (fuel - 1) as nat);
            },
        }
    }
}

/// The simulation records only real changes: in every output history it gives, the changes
/// come at strictly increasing times, each with a pattern that differs from the one before.
pub proof fn law_histories_record_real_changes(m: MachineModel, s: StateModel, inputs: Seq<History>)
    requires
        machine_future(m, s, inputs) is Some,
    ensures
        forall|j: int|
            0 <= j < machine_future(m, s, inputs).unwrap().len() ==> records_real_changes(
                #[trigger] machine_future(m, s, inputs).unwrap()[j],
            ),
{
    let patterns = first_patterns(inputs);
    let start = SimulationPoint {
        state: s,
        patterns,
        outputs: current_patterns(m, s).map_values(|p: FlowPattern| (p, Seq::empty())),
        last_change: -1,
        steps: 0,
    };
    assert(point_records_changes(start));
    lemma_run_keeps_changes(m, inputs, start, MAX_SIMULATION_STEPS as nat);
}

fn first_change_after_exec(changes: &Vec<(Number, FlowPattern)>, last: Number) -> (r: Option<Number>)
    ensures
        r == (match first_change_after(changes@, last as int, 0) {
            Some(t) => Some(t as i64),
            None => None::<i64>,
        }),
        r matches Some(t) ==> first_change_after(changes@, last as int, 0) == Some(t as int),
        r is None ==> first_change_after(changes@, last as int, 0) is None,
        r matches Some(t) ==> exists|k: int|
            0 <= k < changes@.len() && changes@[k].0 == t && t > last && forall|j: int|
                0 <= j < k ==> (#[trigger] changes@[j]).0 <= last,
        r is None ==> forall|j: int| 0 <= j < changes@.len() ==> (#[trigger] changes@[j]).0 <= last,
{
    proof {
        law_next_change_is_first_pending(changes@, last as int);
    }
    let mut i: usize = 0;
    while i < changes.len()
        invariant
            i <= changes@.len(),
            first_change_after(changes@, last as int, 0) == first_change_after(
                changes@,
                last as int,
                i as int,
            ),
            forall|j: int| 0 <= j < i ==> (#[trigger] changes@[j]).0 <= last,
        decreases changes@.len() - i,
    {
        if changes[i].0 > last {
            assert(changes@[i as int].0 == changes[i as int].0);
            return Some(changes[i].0);
        }
        i = i + 1;
    }
    None
}

fn change_at_exec(changes: &Vec<(Number, FlowPattern)>, t: Number) -> (r: Option<FlowPattern>)
    ensures
        r == change_at(changes@, t as int, 0),
{
    let mut i: usize = 0;
    while i < changes.len()
        invariant
            i <= changes@.len(),
            change_at(changes@, t as int, 0) == change_at(changes@, t as int, i as int),
        decreases changes@.len() - i,
    {
        if changes[i].0 == t {
            return Some(changes[i].1);
        }
        i = i + 1;
    }
    None
}

fn earlier_exec(a: Option<Number>, b: Option<Number>) -> (r: Option<Number>)
    ensures
        r matches Some(t) ==> earlier(
            match a {
                Some(x) => Some(x as int),
                None => None,
            },
            match b {
                Some(x) => Some(x as int),
                None => None,
            },
        ) == Some(t as int),
        r is None ==> earlier(
            match a {
                Some(x) => Some(x as int),
                None => None,
            },
            match b {
                Some(x) => Some(x as int),
                None => None,
            },
        ) is None,
{
    match (a, b) {
        (Some(x), Some(y)) => Some(
            if y < x {
                y
            } else {
                x
            },
        ),
        (Some(x), None) => Some(x),
        (None, y) => y,
    }
}

fn earliest_input_change_exec(inputs: &Vec<MachinesGraphInput>, last: Number) -> (r: Option<Number>)
    ensures
        r matches Some(t) ==> earliest_input_change(
            histories(inputs@),
            last as int,
            inputs@.len(),
        ) == Some(t as int),
        r is None ==> earliest_input_change(histories(inputs@), last as int, inputs@.len()) is None,
{
    let ghost h = histories(inputs@);
    let mut result: Option<Number> = None;
    let mut k: usize = 0;
    while k < inputs.len()
        invariant
            k <= inputs@.len(),
            h == histories(inputs@),
            result matches Some(t) ==> earliest_input_change(h, last as int, k as nat) == Some(
                t as int,
            ),
            result is None ==> earliest_input_change(h, last as int, k as nat) is None,
        decreases inputs@.len() - k,
    {
        let first = first_change_after_exec(&inputs[k].changes, last);
        assert(h[k as int].1 == inputs@[k as int].changes@);
        result = earlier_exec(result, first);
        k = k + 1;
    }
    result
}

fn record_pattern_exec(output: &mut MachinesGraphInput, p: FlowPattern, t: Number)
    ensures
        history_of(*final(output)) == record_pattern(history_of(*old(output)), p, t as int),
{
    let n = output.changes.len();
    let latest = if n > 0 {
        output.changes[n - 1].1
    } else {
        output.initial_value
    };
    if p != latest {
        output.changes.push((t, p));
    }
}

/// The output histories of a node: its machine is simulated from its initial state and input
/// patterns through every change of its inputs; at each step the next event is the earliest of
/// the machine's own pattern change and the inputs' first changes after the last event; the
/// input changes at that time are applied in input order, then the machine's own change if it
/// falls then, and each output records its new pattern where it changed. Nothing comes back
/// where the simulation takes `MAX_SIMULATION_STEPS` steps, finds an event that is not after
/// the last one, or leaves the range of `i64`.
pub fn node_output_changes(node: &MachinesGraphNode) -> (r: Option<Vec<MachinesGraphInput>>)
    ensures
        r is Some <==> node_future(*node) is Some,
        r matches Some(outputs) ==> histories(outputs@) == node_future(*node).unwrap(),
{
    let machine = &node.machine;
    let ghost m = machine@;
    let ghost inputs = histories(node.inputs@);
    let mut state = node.initial_state.clone();
    let mut patterns: Vec<FlowPattern> = Vec::new();
    let mut k: usize = 0;
    while k < node.inputs.len()
        invariant
            k <= node.inputs@.len(),
            inputs == histories(node.inputs@),
            patterns@ == first_patterns(inputs).take(k as int),
        decreases node.inputs@.len() - k,
    {
        patterns.push(node.inputs[k].initial_value);
        assert(patterns@ =~= first_patterns(inputs).take(k + 1));
        k = k + 1;
    }
    assert(patterns@ =~= first_patterns(inputs));
    if !machine.can_compute_outputs(&state, patterns.as_slice()) {
        return None;
    }
    let (first_outputs, _) = machine.current_outputs_and_next_change(state.clone(), patterns.as_slice());
    let mut outputs: Vec<MachinesGraphInput> = Vec::new();
    let mut j: usize = 0;
    while j < first_outputs.len()
        invariant
            j <= first_outputs@.len(),
            first_outputs@.len() == m.1.len(),
            outputs_computation_fits(m, state@, patterns@),
            forall|i: int|
                0 <= i < first_outputs@.len() ==> (#[trigger] first_outputs@[i])@ == (
                    state@.0.0 + 1,
                    state@.0.1 * m.1[i].0,
                ),
            histories(outputs@) =~= current_patterns(m, state@).map_values(
                |p: FlowPattern| (p, Seq::<(i64, FlowPattern)>::empty()),
            ).take(j as int),
        decreases first_outputs@.len() - j,
    {
        let ghost before = outputs@;
        outputs.push(MachinesGraphInput { initial_value: first_outputs[j], changes: Vec::new() });
        assert(first_outputs@[j as int] == current_patterns(m, state@)[j as int]);
        assert(histories(outputs@) =~= histories(before).push(
            (first_outputs@[j as int], Seq::<(i64, FlowPattern)>::empty()),
        ));
        assert(histories(outputs@) =~= current_patterns(m, state@).map_values(
            |p: FlowPattern| (p, Seq::<(i64, FlowPattern)>::empty()),
        ).take(j + 1));
        j = j + 1;
    }
    let ghost start = SimulationPoint {
        state: state@,
        patterns: patterns@,
        outputs: histories(outputs@),
        last_change: -1,
        steps: 0,
    };
    assert(start.outputs =~= current_patterns(m, state@).map_values(
        |p: FlowPattern| (p, Seq::<(i64, FlowPattern)>::empty()),
    ));
    let mut last_change: Number = -1;
    let mut steps: u32 = 0;
    loop
        invariant_except_break
            steps < MAX_SIMULATION_STEPS,
            node_future(*node) == simulation_run(
                m,
                inputs,
                SimulationPoint {
                    state: state@,
                    patterns: patterns@,
                    outputs: histories(outputs@),
                    last_change: last_change as int,
                    steps: steps as int,
                },
                (MAX_SIMULATION_STEPS - steps) as nat,
            ),
        invariant
            m == machine@,
            inputs == histories(node.inputs@),
            outputs@.len() == m.1.len(),
        ensures
            node_future(*node) == Some(histories(outputs@)),
        decreases MAX_SIMULATION_STEPS - steps,
    {
        let ghost point = SimulationPoint {
            state: state@,
            patterns: patterns@,
            outputs: histories(outputs@),
            last_change: last_change as int,
            steps: steps as int,
        };
        steps = steps + 1;
        if steps >= MAX_SIMULATION_STEPS {
            return None;
        }
        if !machine.can_compute_outputs(&state, patterns.as_slice()) {
            return None;
        }
        let (_, personal) = machine.current_outputs_and_next_change(state.clone(), patterns.as_slice());
        let personal_time = match &personal {
            Some(change) => Some(change.0),
            None => None,
        };
        let input_time = earliest_input_change_exec(&node.inputs, last_change);
        let next = earlier_exec(personal_time, input_time);
        let ghost spec_personal = personal_change(m, point.state, point.patterns);
        proof {
            assert(spec_personal == match personal {
                Some(c) => Some((c.0 as int, c.1@)),
                None => None::<(int, StateModel)>,
            });
        }
        let ghost spec_personal_time = match spec_personal {
            Some(c) => Some(c.0),
            None => None::<int>,
        };
        let ghost spec_next = earlier(
            spec_personal_time,
            earliest_input_change(inputs, last_change as int, inputs.len()),
        );
        proof {
            assert(spec_personal_time == match personal_time {
                Some(x) => Some(x as int),
                None => None::<int>,
            });
            assert(spec_next == match next {
                Some(x) => Some(x as int),
                None => None::<int>,
            });
        }
        let t = match next {
            None => {
                assert(simulation_step(m, inputs, point) == SimulationStep::Finished(point.outputs));
                break;
            },
            Some(t) => t,
        };
        if t <= last_change {
            assert(simulation_step(m, inputs, point) == SimulationStep::Stuck);
            return None;
        }
        let ghost before_state = state@;
        let ghost before_patterns = patterns@;
        let mut k: usize = 0;
        while k < node.inputs.len()
            invariant
                k <= node.inputs@.len(),
                inputs == histories(node.inputs@),
                m == machine@,
                before_state == point.state,
                before_patterns == point.patterns,
                steps == point.steps + 1,
                steps < MAX_SIMULATION_STEPS,
                outputs_computation_fits(m, point.state, point.patterns),
                spec_personal == personal_change(m, point.state, point.patterns),
                spec_personal_time == match spec_personal {
                    Some(c) => Some(c.0),
                    None => None::<int>,
                },
                earlier(spec_personal_time, earliest_input_change(inputs, point.last_change, inputs.len()))
                    == Some(t as int),
                t > point.last_change,
                node_future(*node) == simulation_run(
                    m,
                    inputs,
                    point,
                    (MAX_SIMULATION_STEPS - point.steps) as nat,
                ),
                patterns@.len() == before_patterns.len(),
                apply_input_changes(inputs, t as int, before_state, before_patterns, k as nat)
                    == Some((state@, patterns@)),
            decreases node.inputs@.len() - k,
        {
            let change = change_at_exec(&node.inputs[k].changes, t);
            assert(inputs[k as int].1 == node.inputs@[k as int].changes@);
            match change {
                None => {},
                Some(pattern) => {
                    if !machine.can_change_input(&state, t, patterns.as_slice(), k) {
                        proof {
                            lemma_failed_changes_stay_failed(
                                inputs,
                                t as int,
                                before_state,
                                before_patterns,
                                (k + 1) as nat,
                                inputs.len(),
                            );
                            assert(simulation_step(m, inputs, point) == SimulationStep::Stuck);
                        }
                        return None;
                    }
                    state = machine.with_input_changed(state, t, patterns.as_slice(), k, pattern);
                    patterns.set(k, pattern);
                },
            }
            k = k + 1;
        }
        match personal {
            Some((time, new_state)) => {
                if time == t {
                    state = new_state;
                }
            },
            None => {},
        }
        if !machine.can_compute_outputs(&state, patterns.as_slice()) {
            return None;
        }
        let (news, _) = machine.current_outputs_and_next_change(state.clone(), patterns.as_slice());
        let ghost old_outputs = outputs@;
        let mut j: usize = 0;
        while j < outputs.len()
            invariant
                j <= outputs@.len(),
                outputs@.len() == old_outputs.len(),
                news@.len() == old_outputs.len(),
                forall|i: int| 0 <= i < j ==> history_of(#[trigger] outputs@[i]) == record_pattern(
                    history_of(old_outputs[i]),
                    news@[i],
                    t as int,
                ),
                forall|i: int| j <= i < outputs@.len() ==> #[trigger] outputs@[i] == old_outputs[i],
            decreases outputs@.len() - j,
        {
            record_pattern_exec(&mut outputs[j], news[j], t);
            j = j + 1;
        }
        proof {
            assert forall|i: int| 0 <= i < news@.len() implies #[trigger] news@[i] == current_patterns(
                m,
                state@,
            )[i] by {
                assert(news@[i]@ == (state@.0.0 + 1, state@.0.1 * m.1[i].0));
            }
            assert(histories(outputs@) =~= Seq::new(
                old_outputs.len(),
                |i: int| record_pattern(
                    histories(old_outputs)[i],
                    current_patterns(m, state@)[i],
                    t as int,
                ),
            ));
        }
        last_change = t;
    }
    Some(outputs)
}

/// A graph node as mathematical values: (machine, initial state, input histories, where each
/// output leads).
pub type NodeModel = (MachineModel, StateModel, Seq<History>, Seq<Option<(usize, usize)>>);

/// A graph node as mathematical values.
pub open spec fn node_model(node: MachinesGraphNode) -> NodeModel {
    (node.machine@, node.initial_state@, histories(node.inputs@), node.output_locations@)
}

/// A graph as mathematical values: its nodes.
pub open spec fn graph_model(graph: MachinesGraph) -> Seq<NodeModel> {
    graph.nodes@.map_values(|node: MachinesGraphNode| node_model(node))
}

/// Every output of every node leads nowhere or to an input of a node of the graph.
pub open spec fn destinations_valid(g: Seq<NodeModel>) -> bool {
    forall|i: int, j: int|
        0 <= i < g.len() && 0 <= j < g[i].3.len() ==> (#[trigger] g[i].3[j] matches Some(d) ==> d.0
            < g.len() && d.1 < g[d.0 as int].2.len())
}

/// The graph and the list of histories that lead nowhere, after the first `j` output histories
/// of node `index` are passed on in order: each becomes the history of the input its output
/// leads to, or is listed with the node's index where it leads nowhere.
pub open spec fn pass_on(
    g: Seq<NodeModel>,
    dumped: Seq<(usize, History)>,
    index: int,
    outputs: Seq<History>,
    j: nat,
) -> (Seq<NodeModel>, Seq<(usize, History)>)
    decreases j,
{
    if j == 0 {
        (g, dumped)
    } else {
        let before = pass_on(g, dumped, index, outputs, (j - 1) as nat);
        let h = before.0;
        match g[index].3[j - 1] {
            Some(d) => (
                h.update(
                    d.0 as int,
                    (h[d.0 as int].0, h[d.0 as int].1, h[d.0 as int].2.update(d.1 as int, outputs[j - 1]), h[d.0 as int].3),
                ),
                before.1,
            ),
            None => (h, before.1.push((index as usize, outputs[j - 1]))),
        }
    }
}

/// The number of outputs whose histories are passed on: those that have both a history and a
/// destination entry.
pub open spec fn passed_count(outputs: Seq<History>, destinations: Seq<Option<(usize, usize)>>) -> nat {
    if outputs.len() <= destinations.len() {
        outputs.len()
    } else {
        destinations.len()
    }
}

/// The graph and the histories that lead nowhere after simulating the nodes from `index` on, in
/// order, each passing its output histories on before the next is simulated; nothing where a
/// node's simulation gives nothing.
pub open spec fn graph_future_from(
    g: Seq<NodeModel>,
    dumped: Seq<(usize, History)>,
    index: int,
    remaining: nat,
) -> Option<(Seq<NodeModel>, Seq<(usize, History)>)>
    decreases remaining,
{
    if remaining == 0 || index < 0 || index >= g.len() {
        Some((g, dumped))
    } else {
        match machine_future(g[index].0, g[index].1, g[index].2) {
            None => None,
            Some(outputs) => {
                let passed = pass_on(
                    g,
                    dumped,
                    index,
                    outputs,
                    passed_count(outputs, g[index].3),
                );
                graph_future_from(passed.0, passed.1, index + 1, (remaining - 1) as nat)
            },
        }
    }
}

proof fn lemma_pass_on_keeps_shape(
    g: Seq<NodeModel>,
    dumped: Seq<(usize, History)>,
    index: int,
    outputs: Seq<History>,
    j: nat,
)
    requires
        0 <= index < g.len(),
        j <= g[index].3.len(),
        destinations_valid(g),
    ensures
        pass_on(g, dumped, index, outputs, j).0.len() == g.len(),
        forall|i: int|
            0 <= i < g.len() ==> (#[trigger] pass_on(g, dumped, index, outputs, j).0[i]).0 == g[i].0
                && pass_on(g, dumped, index, outputs, j).0[i].1 == g[i].1
                && pass_on(g, dumped, index, outputs, j).0[i].2.len() == g[i].2.len()
                && pass_on(g, dumped, index, outputs, j).0[i].3 == g[i].3,
    decreases j,
{
    if j > 0 {
        lemma_pass_on_keeps_shape(g, dumped, index, outputs, (j - 1) as nat);
        assert(g[index].3[j - 1] matches Some(d) ==> d.0 < g.len() && d.1 < g[d.0 as int].2.len());
    }
}

proof fn lemma_shape_keeps_destinations(g: Seq<NodeModel>, h: Seq<NodeModel>)
    requires
        destinations_valid(g),
        h.len() == g.len(),
        forall|i: int|
            0 <= i < g.len() ==> (#[trigger] h[i]).2.len() == g[i].2.len() && h[i].3 == g[i].3,
    ensures
        destinations_valid(h),
{
    assert forall|i: int, j: int|
        0 <= i < h.len() && 0 <= j < h[i].3.len() implies (#[trigger] h[i].3[j] matches Some(d) ==> d.0
        < h.len() && d.1 < h[d.0 as int].2.len()) by {
        assert(h[i].3 == g[i].3);
        if let Some(d) = g[i].3[j] {
            assert(h[d.0 as int].2.len() == g[d.0 as int].2.len());
        }
    }
}

fn copy_destinations(v: &Vec<Option<(usize, usize)>>) -> (r: Vec<Option<(usize, usize)>>)
    ensures
        r@ == v@,
{
    let mut r: Vec<Option<(usize, usize)>> = Vec::new();
    let mut i: usize = 0;
    while i < v.len()
        invariant
            i <= v@.len(),
            r@ == v@.take(i as int),
        decreases v@.len() - i,
    {
        r.push(v[i]);
        assert(r@ =~= v@.take(i + 1));
        i = i + 1;
    }
    assert(v@.take(v@.len() as int) =~= v@);
    r
}

/// The graph after simulating its nodes in order, each passing its output histories on to the
/// inputs they lead to before the next node is simulated, with the histories of outputs that
/// lead nowhere, by node index; nothing where a node's simulation gives nothing.
pub fn simulate_graph_future(graph: MachinesGraph) -> (r: Option<
    (MachinesGraph, Vec<(usize, MachinesGraphInput)>),
>)
    requires
        destinations_valid(graph_model(graph)),
    ensures
        r is Some <==> graph_future_from(
            graph_model(graph),
            Seq::empty(),
            0,
            graph.nodes@.len(),
        ) is Some,
        r matches Some(result) ==> graph_future_from(
            graph_model(graph),
            Seq::empty(),
            0,
            graph.nodes@.len(),
        ) == Some(
            (
                graph_model(result.0),
                result.1@.map_values(
                    |d: (usize, MachinesGraphInput)| (d.0, history_of(d.1)),
                ),
            ),
        ),
{
    let ghost g0 = graph_model(graph);
    let mut current = graph;
    let mut dumped: Vec<(usize, MachinesGraphInput)> = Vec::new();
    assert(dumped@.map_values(|d: (usize, MachinesGraphInput)| (d.0, history_of(d.1))) =~= Seq::<
        (usize, History),
    >::empty());
    let n = current.nodes.len();
    let mut index: usize = 0;
    while index < n
        invariant
            index <= n,
            current.nodes@.len() == n,
            g0.len() == n,
            g0 == graph_model(graph),
            destinations_valid(graph_model(current)),
            graph_future_from(g0, Seq::empty(), 0, n as nat) == graph_future_from(
                graph_model(current),
                dumped@.map_values(|d: (usize, MachinesGraphInput)| (d.0, history_of(d.1))),
                index as int,
                (n - index) as nat,
            ),
        decreases n - index,
    {
        let ghost g = graph_model(current);
        let ghost d0 = dumped@.map_values(|d: (usize, MachinesGraphInput)| (d.0, history_of(d.1)));
        assert(g[index as int] == node_model(current.nodes@[index as int]));
        let mut outputs = match node_output_changes(&current.nodes[index]) {
            Some(outputs) => outputs,
            None => {
                assert(graph_future_from(g, d0, index as int, (n - index) as nat) is None);
                return None;
            },
        };
        let ghost outs = histories(outputs@);
        let destinations = copy_destinations(&current.nodes[index].output_locations);
        assert(destinations@ == g[index as int].3);
        let count = if outputs.len() <= destinations.len() {
            outputs.len()
        } else {
            destinations.len()
        };
        let mut j: usize = 0;
        while j < count
            invariant
                j <= count,
                count == passed_count(outs, g[index as int].3),
                current.nodes@.len() == n,
                g.len() == n,
                index < n,
                destinations_valid(g),
                destinations@ == g[index as int].3,
                outputs@.len() == outs.len(),
                forall|k: int| j <= k < outs.len() ==> #[trigger] history_of(outputs@[k]) == outs[k],
                pass_on(g, d0, index as int, outs, j as nat) == (
                    graph_model(current),
                    dumped@.map_values(|d: (usize, MachinesGraphInput)| (d.0, history_of(d.1))),
                ),
            decreases count - j,
        {
            proof {
                lemma_pass_on_keeps_shape(g, d0, index as int, outs, j as nat);
            }
            let ghost before_graph = graph_model(current);
            let ghost before_dumped = dumped@;
            let mut output = MachinesGraphInput::new();
            std::mem::swap(&mut output, &mut outputs[j]);
            assert(history_of(output) == outs[j as int]);
            match destinations[j] {
                Some((machine, input)) => {
                    assert(g[index as int].3[j as int] == Some((machine, input)));
                    assert(before_graph[machine as int] == node_model(current.nodes@[machine as int]));
                    current.nodes[machine].inputs.set(input, output);
                    proof {
                        assert forall|i: int| 0 <= i < n implies #[trigger] graph_model(current)[i]
                            == before_graph.update(
                            machine as int,
                            (
                                before_graph[machine as int].0,
                                before_graph[machine as int].1,
                                before_graph[machine as int].2.update(input as int, outs[j as int]),
                                before_graph[machine as int].3,
                            ),
                        )[i] by {
                            if i == machine {
                                assert(histories(current.nodes@[i].inputs@) =~= before_graph[i].2.update(
                                    input as int,
                                    outs[j as int],
                                ));
                            }
                        }
                        assert(graph_model(current) =~= before_graph.update(
                            machine as int,
                            (
                                before_graph[machine as int].0,
                                before_graph[machine as int].1,
                                before_graph[machine as int].2.update(input as int, outs[j as int]),
                                before_graph[machine as int].3,
                            ),
                        ));
                    }
                },
                None => {
                    dumped.push((index, output));
                    proof {
                        assert(dumped@.map_values(
                            |d: (usize, MachinesGraphInput)| (d.0, history_of(d.1)),
                        ) =~= before_dumped.map_values(
                            |d: (usize, MachinesGraphInput)| (d.0, history_of(d.1)),
                        ).push((index, outs[j as int])));
                    }
                },
            }
            j = j + 1;
        }
        proof {
            lemma_pass_on_keeps_shape(g, d0, index as int, outs, count as nat);
            lemma_shape_keeps_destinations(g, graph_model(current));
        }
        index = index + 1;
    }
    Some((current, dumped))
}

} // verus!
