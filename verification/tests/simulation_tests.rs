use web_games::simulation::{FlowPattern, RATE_DIVISOR};

fn assert_flow_pattern(rate: i64, prefix: &[i64]) {
    let observed: Vec<i64> = (0..prefix.len())
        .map(|index| FlowPattern { start_time: 0, rate }.num_disbursed_at_time(index as i64))
        .collect();
    assert_eq!(prefix, observed.as_slice());
}

#[test]
fn simulation_flow_pattern_unit_tests() {
    assert_flow_pattern(RATE_DIVISOR, &[1, 1, 1, 1]);
    assert_flow_pattern(RATE_DIVISOR / 2, &[1, 0, 1, 0, 1, 0, 1, 0]);
    assert_flow_pattern(RATE_DIVISOR / 3, &[1, 0, 0, 1, 0, 0, 1, 0]);
    assert_flow_pattern(RATE_DIVISOR * 2 / 3, &[1, 1, 0, 1, 1, 0, 1, 1]);
}

use web_games::geometry::Vector;
use web_games::simulation::{
    conveyor, consumer, material_generator, merger, rotate_90, slow_machine, splitter,
    MachineMapState, MachineMaterialsState, MachinesGraph,
};

fn pattern(start_time: i64, rate: i64) -> FlowPattern {
    FlowPattern { start_time, rate }
}

#[test]
fn equal_patterns_ignore_start_when_nothing_flows() {
    assert_eq!(pattern(3, 0), pattern(9, 0));
    assert_ne!(pattern(3, 5), pattern(9, 5));
    assert_eq!(pattern(3, 5), pattern(3, 5));
}

#[test]
fn disbursement_counts_of_a_started_pattern() {
    let p = pattern(10, RATE_DIVISOR / 2);
    assert_eq!(p.num_disbursed_before(10), 0);
    assert_eq!(p.num_disbursed_before(11), 1);
    assert_eq!(p.num_disbursed_between([10, 16]), 3);
    assert_eq!(p.last_disbursement_before(10), None);
    assert_eq!(p.last_disbursement_before(15), Some(14));
    assert_eq!(p.when_disburses_at_least(3), Some(14));
    assert_eq!(p.when_disburses_at_least(0), Some(i64::MIN));
    assert_eq!(pattern(0, 0).when_disburses_at_least(1), None);
    assert_eq!(p.from_when_will_always_disburse_at_least_amount_plus_ideal_rate(2), Some(14));
    assert_eq!(pattern(0, 0).from_when_will_always_disburse_at_least_amount_plus_ideal_rate(2), None);
}

#[test]
fn rotate_90_turns_counterclockwise() {
    assert_eq!(rotate_90(Vector::new(2, 1), 1), Vector::new(-1, 2));
    assert_eq!(rotate_90(Vector::new(2, 1), 6), Vector::new(-2, -1));
}

#[test]
fn machine_shapes() {
    assert_eq!(conveyor().num_inputs(), 1);
    assert_eq!(splitter().num_outputs(), 2);
    assert_eq!(merger().num_inputs(), 2);
    assert_eq!(material_generator().num_inputs(), 0);
    assert_eq!(consumer().num_outputs(), 0);
    let state = MachineMapState { position: Vector::new(10, 20), facing: 1 };
    assert_eq!(merger().input_locations(state.clone()), vec![Vector::new(10, 21), Vector::new(10, 19)]);
    assert_eq!(merger().output_locations(state), vec![Vector::new(10, 21), Vector::new(10, 19)]);
}

#[test]
fn machine_rates() {
    assert_eq!(splitter().max_output_rates(&[RATE_DIVISOR]), vec![RATE_DIVISOR / 2, RATE_DIVISOR / 2]);
    assert_eq!(slow_machine().max_output_rates(&[RATE_DIVISOR]), vec![RATE_DIVISOR / 10]);
    assert_eq!(merger().max_output_rates(&[100, 40]), vec![80]);
    assert_eq!(merger().min_input_rates_to_produce(&[81]), vec![41, 41]);
    assert_eq!(consumer().min_input_rates_to_produce(&[]), vec![RATE_DIVISOR]);
}

#[test]
fn conveyor_without_input_stays_idle() {
    let machine = conveyor();
    let state = MachineMaterialsState::empty(&machine);
    let (outputs, next) = machine.current_outputs_and_next_change(state, &[pattern(0, 0)]);
    assert_eq!(outputs, vec![pattern(1, 0)]);
    assert!(next.is_none());
}

#[test]
fn splitter_starts_once_it_has_enough_input() {
    let machine = splitter();
    let state = MachineMaterialsState::empty(&machine);
    let (outputs, next) = machine.current_outputs_and_next_change(state, &[pattern(10, RATE_DIVISOR)]);
    assert_eq!(outputs, vec![pattern(1, 0), pattern(1, 0)]);
    let (time, state) = next.unwrap();
    assert_eq!(time, 10);
    let (outputs, next) = machine.current_outputs_and_next_change(state.clone(), &[pattern(10, RATE_DIVISOR)]);
    assert_eq!(outputs, vec![pattern(12, RATE_DIVISOR / 2), pattern(12, RATE_DIVISOR / 2)]);
    assert!(next.is_none());
    let changed = machine.with_input_changed(state, 50, &[pattern(10, RATE_DIVISOR)], 0, pattern(50, RATE_DIVISOR / 4));
    let (_, next) = machine.current_outputs_and_next_change(changed, &[pattern(50, RATE_DIVISOR / 4)]);
    let (time, state) = next.unwrap();
    assert_eq!(time, 50);
    let (outputs, _) = machine.current_outputs_and_next_change(state, &[pattern(50, RATE_DIVISOR / 4)]);
    assert_eq!(outputs, vec![pattern(51, RATE_DIVISOR / 8), pattern(51, RATE_DIVISOR / 8)]);
}

#[test]
fn slow_machine_waits_a_cycle_before_switching() {
    let machine = slow_machine();
    let state = MachineMaterialsState::empty(&machine);
    let (_, next) = machine.current_outputs_and_next_change(state, &[pattern(3, RATE_DIVISOR / 2)]);
    let (time, state) = next.unwrap();
    assert_eq!(time, 3);
    let (outputs, next) = machine.current_outputs_and_next_change(state.clone(), &[pattern(3, RATE_DIVISOR / 2)]);
    assert_eq!(outputs, vec![pattern(4, RATE_DIVISOR / 10)]);
    assert!(next.is_none());
    let (_, next) = machine.current_outputs_and_next_change(state, &[pattern(200, RATE_DIVISOR)]);
    let (time, state) = next.unwrap();
    assert_eq!(time, 203);
    let (outputs, _) = machine.current_outputs_and_next_change(state, &[pattern(200, RATE_DIVISOR)]);
    assert_eq!(outputs, vec![pattern(204, RATE_DIVISOR / 10)]);
}

#[test]
fn merger_runs_at_the_slower_input() {
    let machine = merger();
    let state = MachineMaterialsState::empty(&machine);
    let (_, next) = machine.current_outputs_and_next_change(
        state,
        &[pattern(4, RATE_DIVISOR / 2), pattern(9, RATE_DIVISOR / 3)],
    );
    let (time, state) = next.unwrap();
    assert_eq!(time, 9);
    let (outputs, _) = machine.current_outputs_and_next_change(state, &[]);
    assert_eq!(outputs, vec![pattern(10, RATE_DIVISOR / 3 * 2)]);
}

#[test]
fn generator_starts_at_time_zero() {
    let machine = material_generator();
    let state = MachineMaterialsState::empty(&machine);
    let (outputs, next) = machine.current_outputs_and_next_change(state, &[]);
    assert_eq!(outputs, vec![pattern(1, 0)]);
    let (time, state) = next.unwrap();
    assert_eq!(time, 0);
    let (outputs, next) = machine.current_outputs_and_next_change(state, &[]);
    assert_eq!(outputs, vec![pattern(1, RATE_DIVISOR)]);
    assert!(next.is_none());
}

#[test]
fn graph_connects_outputs_as_listed() {
    let graph = MachinesGraph::new(vec![
        (material_generator(), None, &[(1, 0)][..]),
        (splitter(), None, &[(2, 0), (-1, 0)][..]),
        (consumer(), None, &[][..]),
    ]);
    assert_eq!(graph.nodes.len(), 3);
    assert_eq!(graph.nodes[0].output_locations, vec![Some((1, 0))]);
    assert_eq!(graph.nodes[1].output_locations, vec![Some((2, 0)), None]);
    assert!(graph.nodes[2].output_locations.is_empty());
    assert_eq!(graph.nodes[1].inputs.len(), 1);
    assert_eq!(graph.nodes[1].inputs[0].initial_value, pattern(0, 0));
    assert_eq!(graph.nodes[1].initial_state, MachineMaterialsState::empty(&splitter()));
}

use web_games::graph_simulation::{node_output_changes, simulate_graph_future};
use web_games::simulation::{MachinesGraphInput, MachinesGraphNode, StandardMachine};

fn node(machine: StandardMachine, inputs: Vec<MachinesGraphInput>) -> MachinesGraphNode {
    let initial_state = MachineMaterialsState::empty(&machine);
    MachinesGraphNode { machine, initial_state, inputs, output_locations: vec![] }
}

fn history(initial_value: FlowPattern, changes: Vec<(i64, FlowPattern)>) -> MachinesGraphInput {
    MachinesGraphInput { initial_value, changes }
}

#[test]
fn merger_output_history() {
    let n = node(
        merger(),
        vec![
            history(pattern(4, RATE_DIVISOR / 2), vec![]),
            history(pattern(9, RATE_DIVISOR / 3), vec![]),
        ],
    );
    let outputs = node_output_changes(&n).unwrap();
    assert_eq!(outputs, vec![history(pattern(1, 0), vec![(9, pattern(10, RATE_DIVISOR / 3 * 2))])]);
}

#[test]
fn slow_machine_output_history() {
    let n = node(slow_machine(), vec![history(pattern(3, RATE_DIVISOR / 2), vec![])]);
    let outputs = node_output_changes(&n).unwrap();
    assert_eq!(outputs, vec![history(pattern(1, 0), vec![(3, pattern(4, RATE_DIVISOR / 10))])]);
}

#[test]
fn simulation_stops_on_an_event_that_is_not_later() {
    let n = node(
        conveyor(),
        vec![history(
            pattern(0, 0),
            vec![(5, pattern(5, RATE_DIVISOR)), (300, pattern(300, RATE_DIVISOR / 2))],
        )],
    );
    assert!(node_output_changes(&n).is_none());
}

#[test]
fn graph_passes_histories_along() {
    let graph = MachinesGraph::new(vec![
        (material_generator(), None, &[(1, 0)][..]),
        (splitter(), None, &[(2, 0), (-1, 0)][..]),
        (consumer(), None, &[][..]),
    ]);
    let (graph, dumped) = simulate_graph_future(graph).unwrap();
    assert_eq!(
        graph.nodes[1].inputs,
        vec![history(pattern(1, 0), vec![(0, pattern(1, RATE_DIVISOR))])]
    );
    assert_eq!(
        graph.nodes[2].inputs,
        vec![history(pattern(1, 0), vec![(1, pattern(3, RATE_DIVISOR / 2))])]
    );
    assert_eq!(dumped, vec![(1, history(pattern(1, 0), vec![(1, pattern(3, RATE_DIVISOR / 2))]))]);
}

#[test]
fn output_histories_record_real_changes() {
    let candidates = vec![
        node(conveyor(), vec![history(pattern(0, RATE_DIVISOR), vec![(500, pattern(501, RATE_DIVISOR / 2))])]),
        node(
            merger(),
            vec![
                history(pattern(4, RATE_DIVISOR / 2), vec![(500, pattern(501, RATE_DIVISOR / 4))]),
                history(pattern(9, RATE_DIVISOR / 3), vec![]),
            ],
        ),
    ];
    for n in candidates {
        let outputs = node_output_changes(&n).unwrap();
        assert!(!outputs.is_empty());
        for output in outputs {
            assert_eq!(output.changes.len(), 2);
            let mut previous = output.initial_value;
            let mut previous_time = i64::MIN;
            for (time, p) in output.changes {
                assert!(time > previous_time);
                assert!(p != previous);
                previous = p;
                previous_time = time;
            }
        }
    }
}
