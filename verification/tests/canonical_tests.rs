use std::collections::HashMap;
use web_games::canonical::{canonicalize, is_canonical, modules_equal, Game};
use web_games::geometry::{GridIsomorphism, Rotation, Vector};
use web_games::machine_data::{
    MachineState, MachineType, MachineTypeId, MachineTypes, PlatonicRegionContents, StatefulMachine,
};
use web_games::modules::{basic_module, PlatonicModule};
use web_games::primitive_machines::{conveyor, iron_mine};

fn machine(type_id: MachineTypeId, x: i64) -> StatefulMachine {
    StatefulMachine {
        type_id,
        state: MachineState {
            position: GridIsomorphism {
                translation: Vector::new(x, 0),
                rotation: Rotation::new(0),
                flip: false,
            },
            last_disturbed_time: 0,
        },
    }
}

fn empty_module() -> PlatonicModule {
    match basic_module() {
        MachineType::Module(m) => m,
        _ => panic!("the basic module is a module"),
    }
}

fn module_holding(machines: Vec<StatefulMachine>) -> PlatonicModule {
    let mut m = empty_module();
    m.region.machines = machines;
    m
}

#[test]
fn an_unused_module_is_dropped() {
    let a = module_holding(vec![machine(MachineTypeId::Preset(0), 0)]);
    let b = module_holding(vec![machine(MachineTypeId::Preset(1), 0)]);
    let mut types = MachineTypes { presets: vec![conveyor(), iron_mine()], modules: vec![a, b.clone()] };
    let mut world = PlatonicRegionContents { machines: vec![machine(MachineTypeId::Module(1), 5)] };
    canonicalize(&mut types, &mut world);
    assert_eq!(types.modules.len(), 1);
    assert!(modules_equal(&types.modules[0], &b));
    assert_eq!(world.machines, vec![machine(MachineTypeId::Module(0), 5)]);
    assert_eq!(types.presets.len(), 2);
}

#[test]
fn equal_modules_are_merged() {
    let a = module_holding(vec![machine(MachineTypeId::Preset(0), 0)]);
    let mut types = MachineTypes { presets: vec![conveyor()], modules: vec![a.clone(), a.clone()] };
    let mut world = PlatonicRegionContents {
        machines: vec![machine(MachineTypeId::Module(1), 0), machine(MachineTypeId::Module(0), 4)],
    };
    canonicalize(&mut types, &mut world);
    assert_eq!(types.modules.len(), 1);
    assert!(modules_equal(&types.modules[0], &a));
    assert_eq!(
        world.machines,
        vec![machine(MachineTypeId::Module(0), 0), machine(MachineTypeId::Module(0), 4)]
    );
}

#[test]
fn a_module_equal_to_a_preset_becomes_that_preset() {
    let mut types = MachineTypes {
        presets: vec![conveyor(), basic_module()],
        modules: vec![empty_module()],
    };
    let mut world = PlatonicRegionContents { machines: vec![machine(MachineTypeId::Module(0), 0)] };
    canonicalize(&mut types, &mut world);
    assert!(types.modules.is_empty());
    assert_eq!(world.machines, vec![machine(MachineTypeId::Preset(1), 0)]);
}

#[test]
fn modules_are_ordered_breadth_first_from_the_world() {
    let x = module_holding(vec![machine(MachineTypeId::Preset(0), 1)]);
    let y = module_holding(vec![machine(MachineTypeId::Preset(0), 2)]);
    let z = module_holding(vec![machine(MachineTypeId::Module(0), 3)]);
    let mut types = MachineTypes { presets: vec![conveyor()], modules: vec![x.clone(), y, z] };
    let mut world = PlatonicRegionContents { machines: vec![machine(MachineTypeId::Module(2), 0)] };
    canonicalize(&mut types, &mut world);
    assert_eq!(types.modules.len(), 2);
    assert_eq!(world.machines, vec![machine(MachineTypeId::Module(0), 0)]);
    assert_eq!(types.modules[0].region.machines, vec![machine(MachineTypeId::Module(1), 3)]);
    assert!(modules_equal(&types.modules[1], &x));
}

#[test]
fn canonicalizing_twice_changes_nothing_more() {
    let x = module_holding(vec![machine(MachineTypeId::Preset(0), 1)]);
    let z = module_holding(vec![machine(MachineTypeId::Module(0), 3), machine(MachineTypeId::Module(0), 4)]);
    let mut types = MachineTypes { presets: vec![conveyor()], modules: vec![x, z] };
    let mut world = PlatonicRegionContents {
        machines: vec![machine(MachineTypeId::Module(1), 0), machine(MachineTypeId::Preset(0), 9)],
    };
    canonicalize(&mut types, &mut world);
    let modules_once = types.modules.clone();
    let world_once = world.clone();
    canonicalize(&mut types, &mut world);
    assert_eq!(world, world_once);
    assert_eq!(types.modules.len(), modules_once.len());
    for (a, b) in types.modules.iter().zip(modules_once.iter()) {
        assert!(modules_equal(a, b));
    }
}

#[test]
fn merging_inner_modules_can_make_outer_modules_equal() {
    let c = module_holding(vec![machine(MachineTypeId::Preset(0), 1)]);
    let a = module_holding(vec![machine(MachineTypeId::Module(2), 0)]);
    let b = module_holding(vec![machine(MachineTypeId::Module(3), 0)]);
    let mut types = MachineTypes { presets: vec![conveyor()], modules: vec![a, b, c.clone(), c] };
    let mut world = PlatonicRegionContents {
        machines: vec![machine(MachineTypeId::Module(0), 0), machine(MachineTypeId::Module(1), 4)],
    };
    canonicalize(&mut types, &mut world);
    assert_eq!(types.modules.len(), 3);
    assert!(modules_equal(&types.modules[0], &types.modules[1]));
    canonicalize(&mut types, &mut world);
    assert_eq!(types.modules.len(), 2);
    assert_eq!(
        world.machines,
        vec![machine(MachineTypeId::Module(0), 0), machine(MachineTypeId::Module(0), 4)]
    );
}

#[test]
fn a_canonicalized_game_is_canonical() {
    let x = module_holding(vec![machine(MachineTypeId::Preset(0), 1)]);
    let y = module_holding(vec![machine(MachineTypeId::Preset(0), 2)]);
    let z = module_holding(vec![machine(MachineTypeId::Module(0), 3)]);
    let mut types = MachineTypes { presets: vec![conveyor()], modules: vec![x, y, z] };
    let mut world = PlatonicRegionContents { machines: vec![machine(MachineTypeId::Module(2), 0)] };
    assert!(!is_canonical(&types, &world));
    canonicalize(&mut types, &mut world);
    assert!(is_canonical(&types, &world));
}

#[test]
fn a_game_whose_modules_merge_again_is_not_yet_canonical() {
    let c = module_holding(vec![machine(MachineTypeId::Preset(0), 1)]);
    let a = module_holding(vec![machine(MachineTypeId::Module(2), 0)]);
    let b = module_holding(vec![machine(MachineTypeId::Module(3), 0)]);
    let mut types = MachineTypes { presets: vec![conveyor()], modules: vec![a, b, c.clone(), c] };
    let mut world = PlatonicRegionContents {
        machines: vec![machine(MachineTypeId::Module(0), 0), machine(MachineTypeId::Module(1), 4)],
    };
    canonicalize(&mut types, &mut world);
    assert!(!is_canonical(&types, &world));
    canonicalize(&mut types, &mut world);
    assert!(is_canonical(&types, &world));
}

#[test]
fn a_game_keeps_its_time_and_inventory_when_canonicalized() {
    let x = module_holding(vec![machine(MachineTypeId::Preset(0), 1)]);
    let unused = module_holding(vec![machine(MachineTypeId::Preset(1), 2)]);
    let mut inventory = HashMap::new();
    inventory.insert(web_games::machine_data::Material::Iron, 7);
    let mut game = Game {
        global_region: PlatonicRegionContents { machines: vec![machine(MachineTypeId::Module(1), 0)] },
        machine_types: MachineTypes { presets: vec![conveyor(), iron_mine()], modules: vec![unused, x.clone()] },
        last_change_time: 123,
        inventory_before_last_change: inventory.clone(),
    };
    assert!(!game.is_canonical());
    game.canonicalize();
    assert!(game.is_canonical());
    assert_eq!(game.last_change_time, 123);
    assert_eq!(game.inventory_before_last_change, inventory);
    assert_eq!(game.machine_types.modules.len(), 1);
    assert!(modules_equal(&game.machine_types.modules[0], &x));
    assert_eq!(game.global_region.machines, vec![machine(MachineTypeId::Module(0), 0)]);
}
