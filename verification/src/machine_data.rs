use vstd::prelude::*;
use crate::flow_pattern::MaterialFlow;
use crate::modules::PlatonicModule;
use crate::primitive_machines::{Assembler, Distributor};
use crate::geometry::{
    closest_facing_of, transform_facing, transform_fits, transform_point, Facing, GridIsomorphism,
    Rotate, TransformedBy, Vector,
};

verus! {

/// The number of time units a piece of material takes to move one step.
pub const TIME_TO_MOVE_MATERIAL: i64 = 60;
/// The most machines a region holds.
pub const MAX_COMPONENTS: usize = 256;
/// The most inputs (or outputs) a machine has.
pub const MAX_MACHINE_INPUTS: usize = 8;
/// The most implicit output flow changes a machine makes.
pub const MAX_IMPLICIT_OUTPUT_FLOW_CHANGES: usize = 3;

/// A kind of material that flows between machines.
#[derive(Copy, Clone, PartialEq, Eq, Hash, Debug, Structural)]
pub enum Material {
    IronOre,
    Iron,
    Garbage,
}

impl Default for Material {
    fn default() -> (m: Material)
        ensures
            m == Material::Garbage,
    {
        Material::Garbage
    }
}


impl Material {
    /// The name of the icon drawn for this material.
    pub fn icon(self) -> (r: &'static str)
        ensures
            self == Material::IronOre ==> r@ == "ore"@,
            self == Material::Iron ==> r@ == "iron"@,
            self == Material::Garbage ==> r@ == "machine"@,
    {
        match self {
            Material::IronOre => "ore",
            Material::Iron => "iron",
            Material::Garbage => "machine",
        }
    }
}

/// Which kind of machine: a preset, or a custom module, by index.
#[derive(Copy, Clone, PartialEq, Eq, Hash, Debug, Structural)]
pub enum MachineTypeId {
    Preset(usize),
    Module(usize),
}

/// Where a machine is and when it was last disturbed.
#[derive(Copy, Clone, PartialEq, Eq, Hash, Debug, Structural)]
pub struct MachineState {
    pub position: GridIsomorphism,
    pub last_disturbed_time: i64,
}

/// A machine placed in a region.
#[derive(Copy, Clone, PartialEq, Eq, Hash, Debug, Structural)]
pub struct StatefulMachine {
    pub type_id: MachineTypeId,
    pub state: MachineState,
}

/// What a machine sees of its inputs: the flow arriving at each input, if any, and the time
/// from which it counts them.
#[derive(Copy, Clone, Debug)]
pub struct MachineObservedInputs<'a> {
    pub input_flows: &'a [Option<MaterialFlow>],
    pub start_time: i64,
}

/// Every present output starts at or after `start_time`.
pub open spec fn outputs_start_in_time(start_time: int, outputs: Seq<Option<MaterialFlow>>) -> bool {
    forall|i: int|
        0 <= i < outputs.len() ==> ((#[trigger] outputs[i]) matches Some(f) ==> f.flow@.0
            >= start_time)
}

/// Checks that no output starts before the time from which the machine counts its inputs.
pub fn output_times_valid(inputs: MachineObservedInputs, outputs: &[Option<MaterialFlow>]) -> (r:
    Result<(), String>)
    ensures
        r is Ok <==> outputs_start_in_time(inputs.start_time as int, outputs@),
{
    let mut i: usize = 0;
    while i < outputs.len()
        invariant
            i <= outputs@.len(),
            outputs_start_in_time(inputs.start_time as int, outputs@.take(i as int)),
        decreases outputs@.len() - i,
    {
        if let Some(output) = outputs[i] {
            if output.flow.start_time() < inputs.start_time {
                assert(!outputs_start_in_time(inputs.start_time as int, outputs@)) by {
                    assert(outputs@[i as int] == Some(output));
                }
                return Err("an output started before the start time".to_string());
            }
        }
        assert(outputs@.take(i + 1) =~= outputs@.take(i as int).push(outputs@[i as int]));
        i = i + 1;
    }
    assert(outputs@.take(outputs@.len() as int) =~= outputs@);
    Ok(())
}

/// Why a machine is or is not producing.
#[derive(Copy, Clone, PartialEq, Eq, Hash, Debug, Structural)]
pub enum MachineOperatingState {
    Operating,
    WaitingForInput,
    InputMissing,
    InputTooInfrequent,
    InputIncompatible,
    InCycle,
}

impl Default for MachineOperatingState {
    fn default() -> (r: MachineOperatingState)
        ensures
            r == MachineOperatingState::Operating,
    {
        MachineOperatingState::Operating
    }
}

/// A place where material enters or leaves a machine, and the direction it moves there.
#[derive(Copy, Clone, PartialEq, Eq, Hash, Debug, Structural)]
pub struct InputLocation {
    pub position: Vector,
    pub facing: Facing,
}

impl View for InputLocation {
    /// (position, facing)
    type V = ((int, int), int);

    open spec fn view(&self) -> ((int, int), int) {
        (self.position@, self.facing@)
    }
}

impl InputLocation {
    /// An input at `(x, y)` relative to the machine, where material moves inwards: the facing
    /// opposite to the quadrant that holds `(x, y)`.
    pub fn input(x: i64, y: i64) -> (r: InputLocation)
        requires
            x != i64::MIN,
            y != i64::MIN,
            closest_facing_of((x as int, y as int)) is Some,
        ensures
            r@ == ((x as int, y as int), (closest_facing_of((x as int, y as int)).unwrap() + 2) % 4),
    {
        let position = Vector::new(x, y);
        let facing = position.closest_facing().unwrap();
        let turned = facing.rotate_90(2);
        proof {
            facing.lemma_rotated(2);
        }
        InputLocation { position, facing: turned }
    }

    /// An output at `(x, y)` relative to the machine, where material moves outwards: the facing
    /// of the quadrant that holds `(x, y)`.
    pub fn output(x: i64, y: i64) -> (r: InputLocation)
        requires
            x != i64::MIN,
            y != i64::MIN,
            closest_facing_of((x as int, y as int)) is Some,
        ensures
            r@ == ((x as int, y as int), closest_facing_of((x as int, y as int)).unwrap()),
    {
        let position = Vector::new(x, y);
        let facing = position.closest_facing().unwrap();
        InputLocation { position, facing }
    }
}

impl TransformedBy for InputLocation {
    open spec fn transform_ok(&self, isomorphism: GridIsomorphism) -> bool {
        transform_fits(self.position@, isomorphism@)
    }

    open spec fn transformed(&self, isomorphism: GridIsomorphism) -> InputLocation {
        InputLocation {
            position: self.position.transformed(isomorphism),
            facing: self.facing.transformed(isomorphism),
        }
    }

    fn transformed_by(self, isomorphism: GridIsomorphism) -> (r: InputLocation) {
        InputLocation {
            position: self.position.transformed_by(isomorphism),
            facing: self.facing.transformed_by(isomorphism),
        }
    }
}

impl InputLocation {
    /// What transforming a location computes.
    pub proof fn lemma_transformed(&self, isomorphism: GridIsomorphism)
        requires
            transform_fits(self.position@, isomorphism@),
        ensures
            self.transformed(isomorphism)@ == (
                transform_point(self.position@, isomorphism@),
                transform_facing(self.facing@, isomorphism@),
            ),
    {
        self.facing.lemma_transformed(isomorphism);
    }
}

/// The larger of the absolute values of a point's coordinates: its distance from the centre
/// in the maximum norm.
pub open spec fn distance_from_center(p: (int, int)) -> int {
    let x = crate::geometry::abs_int(p.0);
    let y = crate::geometry::abs_int(p.1);
    if x < y {
        y
    } else {
        x
    }
}

/// A location on the boundary of a machine of radius `radius`, at the middle of a grid square's
/// edge (one coordinate even, the other odd).
pub open spec fn on_boundary(radius: int, l: InputLocation) -> bool {
    &&& distance_from_center(l.position@) == radius
    &&& crate::geometry::abs_int(l.position@.0) % 2 != crate::geometry::abs_int(l.position@.1) % 2
}

/// The rules the inputs and outputs of every machine type follow: outputs face out of the
/// quadrant they sit in and inputs face into it, no two of them share a position, and all sit
/// on the machine's boundary, aligned to the middle of a grid square's edge.
pub open spec fn locations_valid(
    radius: int,
    inputs: Seq<InputLocation>,
    outputs: Seq<InputLocation>,
) -> bool {
    let all = outputs + inputs;
    &&& forall|i: int|
        0 <= i < outputs.len() ==> closest_facing_of((#[trigger] outputs[i]).position@) == Some(
            outputs[i].facing@,
        )
    &&& forall|i: int|
        0 <= i < inputs.len() ==> closest_facing_of((#[trigger] inputs[i]).position@) == Some(
            (inputs[i].facing@ + 2) % 4,
        )
    &&& forall|i: int, j: int|
        0 <= i < j < all.len() ==> (#[trigger] all[i]).position@ != (#[trigger] all[j]).position@
    &&& forall|i: int| 0 <= i < all.len() ==> on_boundary(radius, #[trigger] all[i])
}

/// No coordinate of any of the locations is `i64::MIN`.
pub open spec fn coordinates_above_min(locations: Seq<InputLocation>) -> bool {
    forall|i: int|
        0 <= i < locations.len() ==> (#[trigger] locations[i]).position.0 != i64::MIN
            && locations[i].position.1 != i64::MIN
}

fn abs_coordinate(x: i64) -> (r: i64)
    requires
        x != i64::MIN,
    ensures
        r == crate::geometry::abs_int(x as int),
{
    if x < 0 {
        -x
    } else {
        x
    }
}

/// Checks the rules of `locations_valid` for a machine of radius `radius`; an error names the
/// first rule found broken.
pub fn check_input_output_locations(
    radius: i64,
    inputs: &[InputLocation],
    outputs: &[InputLocation],
) -> (r: Result<(), String>)
    requires
        coordinates_above_min(inputs@),
        coordinates_above_min(outputs@),
    ensures
        r is Ok <==> locations_valid(radius as int, inputs@, outputs@),
{
    let ghost all = outputs@ + inputs@;
    let mut i: usize = 0;
    while i < outputs.len()
        invariant
            i <= outputs.len(),
            coordinates_above_min(outputs@),
            forall|k: int|
                0 <= k < i ==> closest_facing_of((#[trigger] outputs@[k]).position@) == Some(
                    outputs@[k].facing@,
                ),
        decreases outputs.len() - i,
    {
        let output = outputs[i];
        let matches = match output.position.closest_facing() {
            Some(f) => f.quarter_turns_from_posx_towards_posy()
                == output.facing.quarter_turns_from_posx_towards_posy(),
            None => false,
        };
        if !matches {
            assert(closest_facing_of(outputs@[i as int].position@) != Some(
                outputs@[i as int].facing@,
            ));
            return Err("an output does not face out of the quadrant it sits in".to_string());
        }
        i = i + 1;
    }
    let mut i: usize = 0;
    while i < inputs.len()
        invariant
            i <= inputs.len(),
            coordinates_above_min(inputs@),
            forall|k: int|
                0 <= k < i ==> closest_facing_of((#[trigger] inputs@[k]).position@) == Some(
                    (inputs@[k].facing@ + 2) % 4,
                ),
        decreases inputs.len() - i,
    {
        let input = inputs[i];
        let _ = input.facing.quarter_turns_from_posx_towards_posy();
        let turned = input.facing.rotate_90(2);
        proof {
            input.facing.lemma_rotated(2);
        }
        let matches = match input.position.closest_facing() {
            Some(f) => f.quarter_turns_from_posx_towards_posy()
                == turned.quarter_turns_from_posx_towards_posy(),
            None => false,
        };
        if !matches {
            assert(closest_facing_of(inputs@[i as int].position@) != Some(
                (inputs@[i as int].facing@ + 2) % 4,
            ));
            return Err("an input does not face into the quadrant it sits in".to_string());
        }
        i = i + 1;
    }
    let mut positions: Vec<Vector> = Vec::new();
    let mut i: usize = 0;
    while i < outputs.len()
        invariant
            i <= outputs.len(),
            positions@.len() == i,
            forall|k: int| 0 <= k < i ==> positions@[k] == (#[trigger] outputs@[k]).position,
        decreases outputs.len() - i,
    {
        positions.push(outputs[i].position);
        i = i + 1;
    }
    let mut i: usize = 0;
    while i < inputs.len()
        invariant
            i <= inputs.len(),
            positions@.len() == outputs.len() + i,
            forall|k: int| 0 <= k < outputs.len() ==> positions@[k] == (#[trigger] outputs@[k]).position,
            forall|k: int|
                0 <= k < i ==> positions@[outputs.len() + k] == (#[trigger] inputs@[k]).position,
        decreases inputs.len() - i,
    {
        positions.push(inputs[i].position);
        i = i + 1;
    }
    assert forall|k: int| 0 <= k < all.len() implies #[trigger] all[k].position == positions@[k] by {
        if k < outputs.len() {
        } else {
            assert(all[k] == inputs@[k - outputs.len()]);
        }
    }
    assert forall|k: int| 0 <= k < all.len() implies (#[trigger] all[k]).position.0 != i64::MIN
        && all[k].position.1 != i64::MIN by {
        if k >= outputs.len() {
            assert(all[k] == inputs@[k - outputs.len()]);
        }
    }
    let mut i: usize = 0;
    while i < positions.len()
        invariant
            i <= positions.len(),
            positions@.len() == all.len(),
            all == outputs@ + inputs@,
            forall|k: int|
                0 <= k < all.len() ==> (#[trigger] all[k]).position.0 != i64::MIN
                    && all[k].position.1 != i64::MIN,
            forall|k: int| 0 <= k < all.len() ==> #[trigger] all[k].position == positions@[k],
            forall|a: int, b: int|
                0 <= a < b < all.len() && a < i ==> (#[trigger] all[a]).position@ != (
                #[trigger] all[b]).position@,
            forall|k: int| 0 <= k < i ==> on_boundary(radius as int, #[trigger] all[k]),
        decreases positions.len() - i,
    {
        let p = positions[i];
        let mut j: usize = i + 1;
        while j < positions.len()
            invariant
                i < j <= positions.len(),
                positions@.len() == all.len(),
                all == outputs@ + inputs@,
                forall|k: int| 0 <= k < all.len() ==> #[trigger] all[k].position == positions@[k],
                p == positions@[i as int],
                forall|b: int| i < b < j ==> all[i as int].position@ != (#[trigger] all[b]).position@,
            decreases positions.len() - j,
        {
            if positions[j] == p {
                assert(all[i as int].position@ == all[j as int].position@);
                assert(!locations_valid(radius as int, inputs@, outputs@));
                return Err("there are 2 inputs/outputs in the same position".to_string());
            }
            j = j + 1;
        }
        assert(all[i as int].position.0 != i64::MIN && all[i as int].position.1 != i64::MIN);
        assert(all[i as int].position@ == positions@[i as int]@);
        let x = abs_coordinate(p.0);
        let y = abs_coordinate(p.1);
        let distance = if x < y {
            y
        } else {
            x
        };
        if distance != radius {
            assert(!on_boundary(radius as int, all[i as int]));
            return Err("input/output is not on the boundary of the machine".to_string());
        }
        if x % 2 == y % 2 {
            return Err(
                "input/output position is not properly aligned to the edge of a grid square".to_string(),
            );
        }
        assert(on_boundary(radius as int, all[i as int]));
        i = i + 1;
    }
    Ok(())
}

/// Name, icon, size and cost of a machine type.
#[derive(Clone, PartialEq, Eq, Hash, Debug, Default)]
pub struct StandardMachineInfo {
    pub name: String,
    pub icon: String,
    pub radius: i64,
    pub cost: Vec<(i64, Material)>,
}

impl StandardMachineInfo {
    pub fn new(name: &str, icon: &str, radius: i64, cost: Vec<(i64, Material)>) -> (r:
        StandardMachineInfo)
        ensures
            r.name@ == name@,
            r.icon@ == icon@,
            r.radius == radius,
            r.cost@ == cost@,
    {
        StandardMachineInfo { name: name.to_string(), icon: icon.to_string(), radius, cost }
    }
}

/// The machines of one region (the world, or the inside of a module).
#[derive(Clone, PartialEq, Eq, Hash, Debug, Default)]
pub struct PlatonicRegionContents {
    pub machines: Vec<StatefulMachine>,
}


/// A kind of machine: a distributor, an assembler, or a custom module.
#[derive(Clone, PartialEq, Eq, Hash, Debug)]
pub enum MachineType {
    Distributor(Distributor),
    Assembler(Assembler),
    Module(PlatonicModule),
}


/// A borrowed view of a machine type.
#[derive(Copy, Clone, Debug)]
pub enum MachineTypeRef<'a> {
    Distributor(&'a Distributor),
    Assembler(&'a Assembler),
    Module(&'a PlatonicModule),
}

/// All machine types of a game: presets and custom modules.
#[derive(Clone, PartialEq, Eq, Debug)]
pub struct MachineTypes {
    pub presets: Vec<MachineType>,
    pub modules: Vec<PlatonicModule>,
}

impl MachineType {
    pub fn as_ref(&self) -> (r: MachineTypeRef)
        ensures
            r.relative_inputs() == machine_type_inputs(*self),
            r.relative_outputs() == machine_type_outputs(*self),
    {
        match self {
            MachineType::Distributor(value) => MachineTypeRef::Distributor(value),
            MachineType::Assembler(value) => MachineTypeRef::Assembler(value),
            MachineType::Module(value) => MachineTypeRef::Module(value),
        }
    }
}

/// The input locations of a machine type, relative to the machine.
pub open spec fn machine_type_inputs(t: MachineType) -> Seq<InputLocation> {
    match t {
        MachineType::Distributor(d) => d.inputs@,
        MachineType::Assembler(a) => a.inputs@.map_values(|i: crate::primitive_machines::AssemblerInput| i.location),
        MachineType::Module(m) => m.module_type.inputs@.map_values(|i: crate::modules::ModuleInput| i.outer_location),
    }
}

/// The output locations of a machine type, relative to the machine.
pub open spec fn machine_type_outputs(t: MachineType) -> Seq<InputLocation> {
    match t {
        MachineType::Distributor(d) => d.outputs@,
        MachineType::Assembler(a) => a.outputs@.map_values(|o: crate::primitive_machines::AssemblerOutput| o.location),
        MachineType::Module(m) => m.module_type.outputs@.map_values(|o: crate::modules::ModuleInput| o.outer_location),
    }
}

/// The radius of a machine type.
pub open spec fn machine_type_radius(t: MachineType) -> int {
    match t {
        MachineType::Distributor(d) => d.info.radius as int,
        MachineType::Assembler(a) => a.info.radius as int,
        MachineType::Module(m) => m.module_type.info.radius as int,
    }
}

/// The name of a machine type.
pub open spec fn machine_type_name(t: MachineType) -> Seq<char> {
    match t {
        MachineType::Distributor(d) => d.info.name@,
        MachineType::Assembler(a) => a.info.name@,
        MachineType::Module(m) => m.module_type.info.name@,
    }
}

/// What every machine type promises of its shape: a positive radius, and inputs and outputs
/// that follow the rules of `locations_valid`.
pub open spec fn machine_type_valid(t: MachineType) -> bool {
    &&& machine_type_radius(t) > 0
    &&& locations_valid(machine_type_radius(t), machine_type_inputs(t), machine_type_outputs(t))
}

impl<'a> MachineTypeRef<'a> {
    /// The input locations, relative to the machine.
    pub open spec fn relative_inputs(&self) -> Seq<InputLocation> {
        match *self {
            MachineTypeRef::Distributor(d) => d.inputs@,
            MachineTypeRef::Assembler(a) => a.inputs@.map_values(|i: crate::primitive_machines::AssemblerInput| i.location),
            MachineTypeRef::Module(m) => m.module_type.inputs@.map_values(|i: crate::modules::ModuleInput| i.outer_location),
        }
    }

    /// The output locations, relative to the machine.
    pub open spec fn relative_outputs(&self) -> Seq<InputLocation> {
        match *self {
            MachineTypeRef::Distributor(d) => d.outputs@,
            MachineTypeRef::Assembler(a) => a.outputs@.map_values(|o: crate::primitive_machines::AssemblerOutput| o.location),
            MachineTypeRef::Module(m) => m.module_type.outputs@.map_values(|o: crate::modules::ModuleInput| o.outer_location),
        }
    }

    pub fn name(&self) -> (r: &str)
        ensures
            r@ == match *self {
                MachineTypeRef::Distributor(d) => d.info.name@,
                MachineTypeRef::Assembler(a) => a.info.name@,
                MachineTypeRef::Module(m) => m.module_type.info.name@,
            },
    {
        match self {
            MachineTypeRef::Distributor(d) => d.info.name.as_str(),
            MachineTypeRef::Assembler(a) => a.info.name.as_str(),
            MachineTypeRef::Module(m) => m.module_type.info.name.as_str(),
        }
    }

    pub fn icon(&self) -> (r: &str)
        ensures
            r@ == match *self {
                MachineTypeRef::Distributor(d) => d.info.icon@,
                MachineTypeRef::Assembler(a) => a.info.icon@,
                MachineTypeRef::Module(m) => m.module_type.info.icon@,
            },
    {
        match self {
            MachineTypeRef::Distributor(d) => d.info.icon.as_str(),
            MachineTypeRef::Assembler(a) => a.info.icon.as_str(),
            MachineTypeRef::Module(m) => m.module_type.info.icon.as_str(),
        }
    }

    pub fn radius(&self) -> (r: i64)
        ensures
            r == match *self {
                MachineTypeRef::Distributor(d) => d.info.radius,
                MachineTypeRef::Assembler(a) => a.info.radius,
                MachineTypeRef::Module(m) => m.module_type.info.radius,
            },
    {
        match self {
            MachineTypeRef::Distributor(d) => d.info.radius,
            MachineTypeRef::Assembler(a) => a.info.radius,
            MachineTypeRef::Module(m) => m.module_type.info.radius,
        }
    }

    pub fn cost(&self) -> (r: &[(i64, Material)])
        ensures
            r@ == match *self {
                MachineTypeRef::Distributor(d) => d.info.cost@,
                MachineTypeRef::Assembler(a) => a.info.cost@,
                MachineTypeRef::Module(m) => m.module_type.info.cost@,
            },
    {
        match self {
            MachineTypeRef::Distributor(d) => d.info.cost.as_slice(),
            MachineTypeRef::Assembler(a) => a.info.cost.as_slice(),
            MachineTypeRef::Module(m) => m.module_type.info.cost.as_slice(),
        }
    }

    pub fn num_inputs(&self) -> (r: usize)
        ensures
            r == self.relative_inputs().len(),
    {
        match self {
            MachineTypeRef::Distributor(d) => d.inputs.len(),
            MachineTypeRef::Assembler(a) => a.inputs.len(),
            MachineTypeRef::Module(m) => m.module_type.inputs.len(),
        }
    }

    pub fn num_outputs(&self) -> (r: usize)
        ensures
            r == self.relative_outputs().len(),
    {
        match self {
            MachineTypeRef::Distributor(d) => d.outputs.len(),
            MachineTypeRef::Assembler(a) => a.outputs.len(),
            MachineTypeRef::Module(m) => m.module_type.outputs.len(),
        }
    }

    /// The input locations, relative to the machine.
    pub fn relative_input_locations(&self) -> (r: Vec<InputLocation>)
        ensures
            r@ == self.relative_inputs(),
    {
        let mut result: Vec<InputLocation> = Vec::new();
        let n = self.num_inputs();
        let mut i: usize = 0;
        while i < n
            invariant
                i <= n,
                n == self.relative_inputs().len(),
                result@ == self.relative_inputs().take(i as int),
            decreases n - i,
        {
            let location = match self {
                MachineTypeRef::Distributor(d) => d.inputs[i],
                MachineTypeRef::Assembler(a) => a.inputs[i].location,
                MachineTypeRef::Module(m) => m.module_type.inputs[i].outer_location,
            };
            result.push(location);
            assert(result@ =~= self.relative_inputs().take(i as int + 1));
            i = i + 1;
        }
        assert(result@ =~= self.relative_inputs());
        result
    }

    /// The output locations, relative to the machine.
    pub fn relative_output_locations(&self) -> (r: Vec<InputLocation>)
        ensures
            r@ == self.relative_outputs(),
    {
        let mut result: Vec<InputLocation> = Vec::new();
        let n = self.num_outputs();
        let mut i: usize = 0;
        while i < n
            invariant
                i <= n,
                n == self.relative_outputs().len(),
                result@ == self.relative_outputs().take(i as int),
            decreases n - i,
        {
            let location = match self {
                MachineTypeRef::Distributor(d) => d.outputs[i],
                MachineTypeRef::Assembler(a) => a.outputs[i].location,
                MachineTypeRef::Module(m) => m.module_type.outputs[i].outer_location,
            };
            result.push(location);
            assert(result@ =~= self.relative_outputs().take(i as int + 1));
            i = i + 1;
        }
        assert(result@ =~= self.relative_outputs());
        result
    }

    /// Which material each input takes: fixed for assemblers, any for the others.
    pub fn input_materials(&self) -> (r: Vec<Option<Material>>)
        ensures
            r@.len() == self.relative_inputs().len(),
            forall|i: int|
                0 <= i < r@.len() ==> #[trigger] r@[i] == match *self {
                    MachineTypeRef::Assembler(a) => Some(a.inputs@[i].material),
                    _ => None,
                },
    {
        let mut result: Vec<Option<Material>> = Vec::new();
        let n = self.num_inputs();
        let mut i: usize = 0;
        while i < n
            invariant
                i <= n,
                n == self.relative_inputs().len(),
                result@.len() == i,
                forall|j: int|
                    0 <= j < i ==> #[trigger] result@[j] == match *self {
                        MachineTypeRef::Assembler(a) => Some(a.inputs@[j].material),
                        _ => None,
                    },
            decreases n - i,
        {
            let material = match self {
                MachineTypeRef::Assembler(a) => Some(a.inputs[i].material),
                _ => None,
            };
            result.push(material);
            i = i + 1;
        }
        result
    }

    /// Every relative location moved by `position` stays inside `i64`.
    pub open spec fn placements_fit(&self, position: GridIsomorphism) -> bool {
        &&& forall|i: int|
            0 <= i < self.relative_inputs().len() ==> transform_fits(
                #[trigger] self.relative_inputs()[i].position@,
                position@,
            )
        &&& forall|i: int|
            0 <= i < self.relative_outputs().len() ==> transform_fits(
                #[trigger] self.relative_outputs()[i].position@,
                position@,
            )
    }

    /// The input locations of a machine of this type placed at `position`.
    pub fn input_locations(&self, position: GridIsomorphism) -> (r: Vec<InputLocation>)
        requires
            self.placements_fit(position),
        ensures
            r@ == self.relative_inputs().map_values(|l: InputLocation| l.transformed(position)),
    {
        let relative = self.relative_input_locations();
        let mut result: Vec<InputLocation> = Vec::new();
        let mut i: usize = 0;
        while i < relative.len()
            invariant
                i <= relative.len(),
                relative@ == self.relative_inputs(),
                self.placements_fit(position),
                result@ == relative@.take(i as int).map_values(
                    |l: InputLocation| l.transformed(position),
                ),
            decreases relative.len() - i,
        {
            result.push(relative[i].transformed_by(position));
            assert(result@ =~= relative@.take(i as int + 1).map_values(
                |l: InputLocation| l.transformed(position),
            ));
            i = i + 1;
        }
        assert(relative@.take(relative.len() as int) =~= relative@);
        result
    }

    /// The output locations of a machine of this type placed at `position`.
    pub fn output_locations(&self, position: GridIsomorphism) -> (r: Vec<InputLocation>)
        requires
            self.placements_fit(position),
        ensures
            r@ == self.relative_outputs().map_values(|l: InputLocation| l.transformed(position)),
    {
        let relative = self.relative_output_locations();
        let mut result: Vec<InputLocation> = Vec::new();
        let mut i: usize = 0;
        while i < relative.len()
            invariant
                i <= relative.len(),
                relative@ == self.relative_outputs(),
                self.placements_fit(position),
                result@ == relative@.take(i as int).map_values(
                    |l: InputLocation| l.transformed(position),
                ),
            decreases relative.len() - i,
        {
            result.push(relative[i].transformed_by(position));
            assert(result@ =~= relative@.take(i as int + 1).map_values(
                |l: InputLocation| l.transformed(position),
            ));
            i = i + 1;
        }
        assert(relative@.take(relative.len() as int) =~= relative@);
        result
    }
}

/// The machine type an id names, if the id is in range.
pub open spec fn type_of_id(types: MachineTypes, id: MachineTypeId) -> Option<(Seq<InputLocation>, Seq<InputLocation>)> {
    match id {
        MachineTypeId::Preset(i) => if i < types.presets@.len() {
            Some((machine_type_inputs(types.presets@[i as int]), machine_type_outputs(types.presets@[i as int])))
        } else {
            None
        },
        MachineTypeId::Module(i) => if i < types.modules@.len() {
            let m = types.modules@[i as int];
            Some((
                m.module_type.inputs@.map_values(|x: crate::modules::ModuleInput| x.outer_location),
                m.module_type.outputs@.map_values(|x: crate::modules::ModuleInput| x.outer_location),
            ))
        } else {
            None
        },
    }
}

/// Every location in the list, moved by `position`, stays inside `i64`.
pub open spec fn locations_fit(locations: Seq<InputLocation>, position: GridIsomorphism) -> bool {
    forall|i: int|
        0 <= i < locations.len() ==> transform_fits(#[trigger] locations[i].position@, position@)
}

/// A machine's type id is in range and its locations can be placed without overflow.
pub open spec fn placed_machine_fits(types: MachineTypes, machine: StatefulMachine) -> bool {
    &&& type_of_id(types, machine.type_id) is Some
    &&& locations_fit(type_of_id(types, machine.type_id).unwrap().0, machine.state.position)
    &&& locations_fit(type_of_id(types, machine.type_id).unwrap().1, machine.state.position)
}

/// The input locations of a placed machine.
pub open spec fn placed_inputs(types: MachineTypes, machine: StatefulMachine) -> Seq<InputLocation> {
    type_of_id(types, machine.type_id).unwrap().0.map_values(
        |l: InputLocation| l.transformed(machine.state.position),
    )
}

/// The output locations of a placed machine.
pub open spec fn placed_outputs(types: MachineTypes, machine: StatefulMachine) -> Seq<InputLocation> {
    type_of_id(types, machine.type_id).unwrap().1.map_values(
        |l: InputLocation| l.transformed(machine.state.position),
    )
}

impl MachineTypes {
    /// The machine type an id names; the id must be in range.
    pub fn get(&self, id: MachineTypeId) -> (r: MachineTypeRef)
        requires
            type_of_id(*self, id) is Some,
        ensures
            type_of_id(*self, id) == Some((r.relative_inputs(), r.relative_outputs())),
    {
        match id {
            MachineTypeId::Preset(index) => self.presets[index].as_ref(),
            MachineTypeId::Module(index) => MachineTypeRef::Module(&self.modules[index]),
        }
    }

    /// The input locations of a placed machine; its type id must be in range.
    pub fn input_locations(&self, machine: &StatefulMachine) -> (r: Vec<InputLocation>)
        requires
            placed_machine_fits(*self, *machine),
        ensures
            r@ == placed_inputs(*self, *machine),
    {
        let t = self.get(machine.type_id);
        t.input_locations(machine.state.position)
    }

    /// The output locations of a placed machine; its type id must be in range.
    pub fn output_locations(&self, machine: &StatefulMachine) -> (r: Vec<InputLocation>)
        requires
            placed_machine_fits(*self, *machine),
        ensures
            r@ == placed_outputs(*self, *machine),
    {
        let t = self.get(machine.type_id);
        t.output_locations(machine.state.position)
    }

    /// The module an id names; the id must name a module in range.
    pub fn get_module(&self, id: MachineTypeId) -> (r: &PlatonicModule)
        requires
            match id {
                MachineTypeId::Preset(i) => i < self.presets@.len() && self.presets@[i as int] is Module,
                MachineTypeId::Module(i) => i < self.modules@.len(),
            },
        ensures
            match id {
                MachineTypeId::Preset(i) => self.presets@[i as int] == MachineType::Module(*r),
                MachineTypeId::Module(i) => *r == self.modules@[i as int],
            },
    {
        match id {
            MachineTypeId::Preset(index) => match &self.presets[index] {
                MachineType::Module(module) => module,
                _ => {
                    proof {
                        assert(false);
                    }
                    &self.modules[0]
                },
            },
            MachineTypeId::Module(index) => &self.modules[index],
        }
    }
}

} // verus!
