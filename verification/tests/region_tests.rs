use web_games::flow_pattern::{FlowPattern, MaterialFlow};
use web_games::geometry::{GridIsomorphism, Rotation, Vector};
use web_games::machine_data::{
    InputLocation, MachineOperatingState, MachineState, MachineTypeId, MachineTypes, Material,
    PlatonicRegionContents, StatefulMachine,
};
use web_games::modules::basic_module;
use web_games::primitive_machines::{conveyor, iron_mine, iron_smelter, splitter};
use web_games::region_future::{game_future, MachineFuture, ModuleFutures};

fn flow(material: Material, start: i64, rate: i64) -> MaterialFlow {
    MaterialFlow { material, flow: FlowPattern::new(start, rate) }
}

fn placed(preset: usize, x: i64, y: i64, quarters: u8) -> StatefulMachine {
    StatefulMachine {
        type_id: MachineTypeId::Preset(preset),
        state: MachineState {
            position: GridIsomorphism {
                translation: Vector::new(x, y),
                rotation: Rotation::new(quarters),
                flip: false,
            },
            last_disturbed_time: 0,
        },
    }
}

fn types() -> MachineTypes {
    MachineTypes {
        presets: vec![conveyor(), splitter(), iron_smelter(), iron_mine(), basic_module()],
        modules: vec![],
    }
}

#[test]
fn flows_pass_along_a_chain_of_conveyors() {
    let types = types();
    let region = PlatonicRegionContents {
        machines: vec![placed(0, 0, 0, 0), placed(0, 2, 0, 0), placed(0, 4, 0, 2)],
    };
    let edges = region.output_edges(&types);
    let ordering = region.topological_ordering_of_noncyclic_machines(&edges);
    let fiat = vec![(InputLocation::input(-1, 0), flow(Material::Iron, 0, 43200))];
    let mut memo = ModuleFutures::new();
    let future = region.region_future(&types, &edges, &ordering, &fiat, &mut memo).ok().unwrap();
    assert_eq!(future.machines.len(), 3);
    assert!(future.machines[0].inputs.contains(&Some(flow(Material::Iron, 0, 43200))));
    assert!(future.machines[1].inputs.contains(&Some(flow(Material::Iron, 60, 43200))));
    match &future.machines[1].future {
        Ok(MachineFuture::Distributor(d)) => {
            assert_eq!(d.output_availability_start, 60);
            assert_eq!(d.outputs, vec![FlowPattern::new(120, 43200)]);
        },
        other => panic!("expected a distributor future, found {:?}", other),
    }
    assert_eq!(future.machines[2].future, Err(MachineOperatingState::InputMissing));
    assert_eq!(future.dumped, vec![(InputLocation::output(3, 0), flow(Material::Iron, 120, 43200))]);
    assert!(memo.entries.is_empty());
}

#[test]
fn module_insides_are_computed_once_per_canonical_inputs() {
    let types = types();
    let region = PlatonicRegionContents {
        machines: vec![placed(4, 0, 0, 0), placed(4, 100, 0, 0)],
    };
    let edges = region.output_edges(&types);
    let ordering = region.topological_ordering_of_noncyclic_machines(&edges);
    let mut memo = ModuleFutures::new();
    let future = region.region_future(&types, &edges, &ordering, &[], &mut memo).ok().unwrap();
    assert_eq!(memo.entries.len(), 1);
    assert_eq!(memo.entries[0].0, MachineTypeId::Preset(4));
    assert!(memo.entries[0].2.machines.is_empty());
    for machine in &future.machines {
        match &machine.future {
            Ok(MachineFuture::Module(m)) => {
                assert_eq!(m.start_time, 60);
                assert!(m.canonical_inputs.iter().all(|c| c.is_none()));
            },
            other => panic!("expected a module future, found {:?}", other),
        }
    }
    assert!(future.dumped.is_empty());
    let again = region.region_future(&types, &edges, &ordering, &[], &mut memo).ok().unwrap();
    assert_eq!(memo.entries.len(), 1);
    assert_eq!(again, future);
}

#[test]
fn a_game_future_starts_from_the_global_region() {
    let types = types();
    let region = PlatonicRegionContents {
        machines: vec![placed(3, 0, 0, 0), placed(4, 100, 0, 0)],
    };
    let (future, memo) = game_future(&region, &types).ok().unwrap();
    assert_eq!(future.machines.len(), 2);
    match &future.machines[0].future {
        Ok(MachineFuture::Assembler(a)) => {
            assert_eq!(a.assembly_start_pattern, FlowPattern::new(0, 43200));
        },
        other => panic!("expected an assembler future, found {:?}", other),
    }
    assert_eq!(memo.entries.len(), 1);
}

#[test]
fn a_failure_says_where_the_future_stopped() {
    let types = types();
    let mut mine = placed(3, 0, 0, 0);
    mine.state.last_disturbed_time = i64::MAX - 10;
    let region = PlatonicRegionContents { machines: vec![placed(0, -10, 0, 0), mine] };
    match game_future(&region, &types) {
        Err((failure, memo)) => {
            let edges = region.output_edges(&types);
            let ordering = region.topological_ordering_of_noncyclic_machines(&edges);
            assert_eq!(ordering[failure.visited], 1);
            assert_eq!(failure.partial.machines[1].future, Err(MachineOperatingState::InCycle));
            assert!(failure.inside.is_none());
            assert!(memo.entries.is_empty());
        },
        Ok(_) => panic!("the mine's start time leaves no room for an assembly"),
    }
}
