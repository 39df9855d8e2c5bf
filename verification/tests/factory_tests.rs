use web_games::flow_pattern::{FlowPattern, FlowRate, MaterialFlow, MaterialFlowRate};
use web_games::geometry::{Facing, GridIsomorphism, Rotation, Vector};
use web_games::machine_data::{
    check_input_output_locations, output_times_valid, InputLocation, MachineObservedInputs, MachineOperatingState,
    MachineState, MachineType, MachineTypeId, MachineTypes, Material, PlatonicRegionContents,
    StatefulMachine,
};
use web_games::modules::{basic_module, canonical_module_input, machine_presets, ModuleMachineFuture, PlatonicModule};
use web_games::primitive_machines::{first_disbursements_of_flows, total_rate_of, AssemblerFuture};
use web_games::primitive_machines::{conveyor, iron_mine, iron_smelter, splitter, Assembler, Distributor};

fn distributor(t: MachineType) -> Distributor {
    match t {
        MachineType::Distributor(d) => d,
        _ => panic!("not a distributor"),
    }
}

fn assembler(t: MachineType) -> Assembler {
    match t {
        MachineType::Assembler(a) => a,
        _ => panic!("not an assembler"),
    }
}

fn module(t: MachineType) -> PlatonicModule {
    match t {
        MachineType::Module(m) => m,
        _ => panic!("not a module"),
    }
}

fn flow(material: Material, start: i64, rate: i64) -> MaterialFlow {
    MaterialFlow { material, flow: FlowPattern::new(start, rate) }
}

fn placed(preset: usize, x: i64, y: i64, quarters: u8) -> StatefulMachine {
    StatefulMachine {
        type_id: MachineTypeId::Preset(preset),
        state: MachineState {
            position: GridIsomorphism {
                translation: Vector::new(x, y),
                rotation: Rotation::new(quarters),
                flip: false,
            },
            last_disturbed_time: 0,
        },
    }
}

fn presets() -> MachineTypes {
    MachineTypes { presets: vec![conveyor(), splitter(), iron_smelter(), iron_mine()], modules: vec![] }
}

#[test]
fn input_and_output_locations_face_the_right_way() {
    let input = InputLocation::input(-1, 0);
    assert_eq!(input.position, Vector::new(-1, 0));
    assert_eq!(input.facing, Facing::new(0));
    let output = InputLocation::output(0, -3);
    assert_eq!(output.facing, Facing::new(3));
}

#[test]
fn preset_machines_have_valid_locations() {
    for t in [conveyor(), splitter(), iron_smelter(), iron_mine(), basic_module()] {
        let r = t.as_ref();
        let inputs = r.relative_input_locations();
        let outputs = r.relative_output_locations();
        assert!(check_input_output_locations(r.radius(), &inputs, &outputs).is_ok());
        assert_eq!(inputs.len(), r.num_inputs());
        assert_eq!(outputs.len(), r.num_outputs());
    }
}

#[test]
fn location_checks_find_each_broken_rule() {
    let good_inputs = vec![InputLocation::input(-1, 0)];
    let good_outputs = vec![InputLocation::output(1, 0)];
    assert!(check_input_output_locations(1, &good_inputs, &good_outputs).is_ok());
    let wrong_facing = vec![InputLocation { position: Vector::new(1, 0), facing: Facing::new(1) }];
    assert!(check_input_output_locations(1, &good_inputs, &wrong_facing).is_err());
    let inward_output = vec![InputLocation::input(1, 0)];
    assert!(check_input_output_locations(1, &good_inputs, &inward_output).is_err());
    let same_place = vec![InputLocation::output(-1, 0)];
    assert!(check_input_output_locations(1, &good_inputs, &same_place).is_err());
    assert!(check_input_output_locations(2, &good_inputs, &good_outputs).is_err());
    let misaligned = vec![InputLocation::output(2, 0)];
    assert!(check_input_output_locations(2, &[], &misaligned).is_err());
}

#[test]
fn machine_type_information() {
    let r = iron_smelter();
    let r = r.as_ref();
    assert_eq!(r.name(), "Iron smelter");
    assert_eq!(r.icon(), "machine");
    assert_eq!(r.radius(), 3);
    assert_eq!(r.cost(), &[(5, Material::Iron)][..]);
    assert_eq!(r.input_materials(), vec![Some(Material::IronOre)]);
    assert_eq!(Material::IronOre.icon(), "ore");
    let c = conveyor();
    assert_eq!(c.as_ref().input_materials(), vec![None, None, None]);
}

#[test]
fn placed_locations_follow_the_machine() {
    let types = presets();
    let machine = placed(0, 4, 0, 2);
    let inputs = types.input_locations(&machine);
    assert_eq!(inputs[0], InputLocation { position: Vector::new(5, 0), facing: Facing::new(2) });
    let outputs = types.output_locations(&machine);
    assert_eq!(outputs, vec![InputLocation { position: Vector::new(3, 0), facing: Facing::new(2) }]);
}

#[test]
fn output_edges_and_ordering_of_a_small_region() {
    let types = presets();
    let region = PlatonicRegionContents {
        machines: vec![placed(0, 0, 0, 0), placed(0, 2, 0, 0), placed(0, 4, 0, 2)],
    };
    let edges = region.output_edges(&types);
    assert_eq!(edges, vec![vec![Some((1, 0))], vec![None], vec![None]]);
    let ordering = region.topological_ordering_of_noncyclic_machines(&edges);
    assert_eq!(ordering, vec![2, 0, 1]);
}

#[test]
fn cycles_are_left_out_of_the_ordering() {
    let edges = vec![vec![Some((1, 0))], vec![Some((0, 0))], vec![Some((0, 1))], vec![None]];
    let region = PlatonicRegionContents {
        machines: vec![placed(0, 0, 0, 0), placed(0, 0, 0, 0), placed(0, 0, 0, 0), placed(0, 0, 0, 0)],
    };
    let ordering = region.topological_ordering_of_noncyclic_machines(&edges);
    assert_eq!(ordering, vec![3, 2]);
}

#[test]
fn canonical_module_inputs_round_down_to_permitted_rates() {
    let exact = canonical_module_input(flow(Material::Iron, 0, 43200)).unwrap();
    assert_eq!(exact, MaterialFlowRate { material: Material::Iron, flow: FlowRate::new(43200) });
    assert_eq!(canonical_module_input(flow(Material::Iron, 5, 100)), None);
    let low = canonical_module_input(flow(Material::IronOre, 0, 500)).unwrap();
    assert_eq!(low, MaterialFlowRate { material: Material::IronOre, flow: FlowRate::new(450) });
    let high = canonical_module_input(flow(Material::Iron, 0, 50000)).unwrap();
    assert_eq!(high.flow.rate(), 43200);
    assert_eq!(canonical_module_input(flow(Material::Iron, 0, 5000)).unwrap().flow.rate(), 3600);
    assert_eq!(canonical_module_input(flow(Material::Iron, 0, 14400)).unwrap().flow.rate(), 14400);
}

#[test]
fn splitter_distributes_its_input() {
    let d = distributor(splitter());
    let flows = vec![Some(flow(Material::Iron, 10, 43200))];
    let inputs = MachineObservedInputs { input_flows: &flows, start_time: 0 };
    let future = d.future(inputs, 43200, &[10]).unwrap();
    assert_eq!(future.material, Material::Iron);
    assert_eq!(future.output_availability_start, 10);
    assert_eq!(future.outputs, vec![FlowPattern::new(70, 21600), FlowPattern::new(130, 21600)]);
    let outputs = d.output_flows(&future);
    assert_eq!(outputs, vec![Some(flow(Material::Iron, 70, 21600)), Some(flow(Material::Iron, 130, 21600))]);
}

#[test]
fn distributor_errors() {
    let d = distributor(conveyor());
    let none: Vec<Option<MaterialFlow>> = vec![None, None, None];
    let inputs = MachineObservedInputs { input_flows: &none, start_time: 0 };
    assert_eq!(d.future(inputs, 0, &[0, 0, 0]), Err(MachineOperatingState::InputMissing));
    let mixed = vec![Some(flow(Material::Iron, 0, 10)), None, Some(flow(Material::IronOre, 0, 10))];
    let inputs = MachineObservedInputs { input_flows: &mixed, start_time: 0 };
    assert_eq!(d.future(inputs, 20, &[0, 0, 0]), Err(MachineOperatingState::InputIncompatible));
    let slow = vec![Some(flow(Material::Iron, 0, 1))];
    let inputs = MachineObservedInputs { input_flows: &slow, start_time: 0 };
    let s = distributor(splitter());
    assert_eq!(s.future(inputs, 1, &[0]), Err(MachineOperatingState::InputTooInfrequent));
}

#[test]
fn conveyor_merges_matching_inputs() {
    let d = distributor(conveyor());
    let flows = vec![Some(flow(Material::Iron, 0, 43200)), None, Some(flow(Material::Iron, 3, 43200))];
    let inputs = MachineObservedInputs { input_flows: &flows, start_time: 0 };
    let future = d.future(inputs, 86400, &[0, 0, 3]).unwrap();
    assert_eq!(future.output_availability_start, 3);
    assert_eq!(future.outputs, vec![FlowPattern::new(63, 43200)]);
}

#[test]
fn smelter_assembles_when_ore_arrives() {
    let a = assembler(iron_smelter());
    let flows = vec![Some(flow(Material::IronOre, 0, 43200))];
    let inputs = MachineObservedInputs { input_flows: &flows, start_time: 0 };
    let future = a.future(inputs, &[120]).unwrap();
    assert_eq!(future.assembly_start_pattern, FlowPattern::new(180, 4320));
    assert_eq!(future.outputs, vec![FlowPattern::new(840, 8640)]);
    assert_eq!(a.output_flows(&future), vec![Some(flow(Material::Iron, 840, 8640))]);
}

#[test]
fn assembler_errors() {
    let a = assembler(iron_smelter());
    let none: Vec<Option<MaterialFlow>> = vec![None];
    let inputs = MachineObservedInputs { input_flows: &none, start_time: 0 };
    assert_eq!(a.future(inputs, &[0]), Err(MachineOperatingState::InputMissing));
    let wrong = vec![Some(flow(Material::Iron, 0, 43200))];
    let inputs = MachineObservedInputs { input_flows: &wrong, start_time: 0 };
    assert_eq!(a.future(inputs, &a.ready_times(&wrong, 0).unwrap()), Err(MachineOperatingState::InputIncompatible));
    let slow = vec![Some(flow(Material::IronOre, 0, 2))];
    let inputs = MachineObservedInputs { input_flows: &slow, start_time: 0 };
    assert_eq!(a.ready_times(&slow, 0), Some(vec![2592000]));
    assert_eq!(a.future(inputs, &[2592000]), Err(MachineOperatingState::InputTooInfrequent));
}

#[test]
fn mine_needs_no_input() {
    let a = assembler(iron_mine());
    let inputs = MachineObservedInputs { input_flows: &[], start_time: 5 };
    let future = a.future(inputs, &[]).unwrap();
    assert_eq!(future.assembly_start_pattern, FlowPattern::new(5, 43200));
    assert_eq!(future.outputs, vec![FlowPattern::new(125, 43200)]);
}

#[test]
fn module_future_and_outputs() {
    let m = module(basic_module());
    let flows = vec![Some(flow(Material::Iron, 0, 43200)), None, Some(flow(Material::Iron, 7, 21600)), None];
    let inputs = MachineObservedInputs { input_flows: &flows, start_time: 0 };
    let future = m.future(inputs, &[0, 0, 7, 0]).unwrap();
    assert_eq!(future.start_time, 67);
    assert_eq!(
        future.canonical_inputs,
        vec![
            Some(MaterialFlowRate { material: Material::Iron, flow: FlowRate::new(43200) }),
            None,
            Some(MaterialFlowRate { material: Material::Iron, flow: FlowRate::new(21600) }),
            None,
        ]
    );
    let empty = MachineObservedInputs { input_flows: &[None, None, None, None], start_time: 9 };
    assert_eq!(m.future(empty, &[0, 0, 0, 0]).unwrap().start_time, 69);

    let dumped = vec![
        (InputLocation::output(18, -1), flow(Material::Iron, 5, 43200)),
        (InputLocation::output(18, -1), flow(Material::IronOre, 9, 100)),
        (InputLocation::output(18, 3), flow(Material::IronOre, 2, 700)),
    ];
    let future = ModuleMachineFuture { canonical_inputs: vec![], start_time: 100 };
    let outputs = m.module_output_flows(&future, &dumped);
    assert_eq!(
        outputs,
        vec![
            None,
            Some(flow(Material::Iron, 165, 43200)),
            None,
            Some(flow(Material::IronOre, 162, 700)),
        ]
    );
}

#[test]
fn module_outputs_start_after_start_time() {
    let m = module(basic_module());
    let flows = vec![None, Some(flow(Material::Iron, 40, 43200)), None, None];
    let inputs = MachineObservedInputs { input_flows: &flows, start_time: 30 };
    let future = m.future(inputs, &[0, 40, 0, 0]).unwrap();
    assert_eq!(future.start_time, 100);
    let dumped = vec![(InputLocation::output(18, -1), flow(Material::Iron, 0, 43200))];
    let outputs = m.module_output_flows(&future, &dumped);
    let first = outputs[1].unwrap();
    assert_eq!(first, flow(Material::Iron, 160, 43200));
    assert!(first.flow.start_time() >= 30 + 120);
}

#[test]
fn presets_in_order() {
    let presets = machine_presets();
    let names: Vec<String> = presets.iter().map(|t| t.as_ref().name().to_string()).collect();
    assert_eq!(names, vec!["Conveyor", "Splitter", "Iron smelter", "Iron mine", "Basic module"]);
    assert_eq!(presets[0], conveyor());
    assert_eq!(presets[4], basic_module());
}

#[test]
fn output_times_are_checked() {
    let d = distributor(splitter());
    let flows = vec![Some(flow(Material::Iron, 10, 43200))];
    let inputs = MachineObservedInputs { input_flows: &flows, start_time: 5 };
    let future = d.future(inputs, 43200, &[10]).unwrap();
    let outputs = d.output_flows(&future);
    assert_eq!(output_times_valid(inputs, &outputs), Ok(()));
    let early = vec![None, Some(flow(Material::Iron, 4, 43200))];
    assert!(output_times_valid(inputs, &early).is_err());
    let on_time = vec![None, Some(flow(Material::Iron, 5, 43200))];
    assert_eq!(output_times_valid(inputs, &on_time), Ok(()));
    assert_eq!(output_times_valid(inputs, &[]), Ok(()));
}

#[test]
fn future_arguments_come_from_the_flows() {
    let flows = vec![Some(flow(Material::Iron, 0, 43200)), None, Some(flow(Material::Iron, 3, 21600))];
    assert_eq!(total_rate_of(&flows), Some(64800));
    assert_eq!(first_disbursements_of_flows(&flows, 1), Some(vec![60, 0, 3]));
    let too_much = vec![Some(flow(Material::Iron, 0, i64::MAX)), Some(flow(Material::Iron, 0, 1))];
    assert_eq!(total_rate_of(&too_much), None);
    let a = assembler(iron_smelter());
    let ore = vec![Some(flow(Material::IronOre, 0, 43200))];
    assert_eq!(a.ready_times(&ore, 0), Some(vec![120]));
    assert_eq!(a.ready_times(&ore, 1), Some(vec![180]));
}

#[test]
fn an_assembler_operates_from_one_move_before_its_first_assembly() {
    let future = AssemblerFuture { assembly_start_pattern: FlowPattern::new(100, 600), outputs: vec![] };
    assert_eq!(future.momentary_operating_state(40), MachineOperatingState::Operating);
    assert_eq!(future.momentary_operating_state(500), MachineOperatingState::Operating);
    assert_eq!(future.momentary_operating_state(39), MachineOperatingState::WaitingForInput);
    let early = AssemblerFuture { assembly_start_pattern: FlowPattern::new(i64::MIN, 600), outputs: vec![] };
    assert_eq!(early.momentary_operating_state(i64::MIN), MachineOperatingState::Operating);
}
