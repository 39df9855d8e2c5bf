use vstd::prelude::*;
use crate::arith::in_i64;
use crate::flow_pattern::{
    first_disbursement_geq, nth_disbursement_geq, nth_geq_fits, FlowPattern, MaterialFlow, Number, RATE_DIVISOR,
};
use crate::geometry::closest_facing_of;
use crate::machine_data::{
    machine_type_valid, InputLocation, MachineObservedInputs, MachineOperatingState, MachineType,
    Material, StandardMachineInfo, MAX_MACHINE_INPUTS, TIME_TO_MOVE_MATERIAL,
};

verus! {

/// An assembler input: which material, how many per assembly, and where.
#[derive(Copy, Clone, PartialEq, Eq, Hash, Debug, Structural)]
pub struct AssemblerInput {
    pub material: Material,
    pub cost: Number,
    pub location: InputLocation,
}

/// An assembler output: which material, how many per assembly, and where.
#[derive(Copy, Clone, PartialEq, Eq, Hash, Debug, Structural)]
pub struct AssemblerOutput {
    pub material: Material,
    pub amount: Number,
    pub location: InputLocation,
}

/// A machine that turns fixed amounts of inputs into fixed amounts of outputs.
#[derive(Clone, PartialEq, Eq, Hash, Debug)]
pub struct Assembler {
    pub info: StandardMachineInfo,
    pub inputs: Vec<AssemblerInput>,
    pub outputs: Vec<AssemblerOutput>,
    pub assembly_duration: Number,
}

/// A machine that passes any one material from its inputs on to its outputs.
#[derive(Clone, PartialEq, Eq, Hash, Debug)]
pub struct Distributor {
    pub info: StandardMachineInfo,
    pub inputs: Vec<InputLocation>,
    pub outputs: Vec<InputLocation>,
}

/// Where an input location may be placed: off the diagonals and away from `i64::MIN`.
pub open spec fn location_ok(x: int, y: int) -> bool {
    x != i64::MIN && y != i64::MIN && closest_facing_of((x, y)) is Some
}

/// The input location at `(x, y)` as mathematical values.
pub open spec fn input_location_model(x: int, y: int) -> ((int, int), int) {
    ((x, y), (closest_facing_of((x, y)).unwrap() + 2) % 4)
}

/// The output location at `(x, y)` as mathematical values.
pub open spec fn output_location_model(x: int, y: int) -> ((int, int), int) {
    ((x, y), closest_facing_of((x, y)).unwrap())
}

impl AssemblerInput {
    pub fn new(x: Number, y: Number, material: Material, cost: Number) -> (r: AssemblerInput)
        requires
            location_ok(x as int, y as int),
        ensures
            r.location@ == input_location_model(x as int, y as int),
            r.material == material,
            r.cost == cost,
    {
        AssemblerInput { location: InputLocation::input(x, y), material, cost }
    }
}

impl AssemblerOutput {
    pub fn new(x: Number, y: Number, material: Material, amount: Number) -> (r: AssemblerOutput)
        requires
            location_ok(x as int, y as int),
        ensures
            r.location@ == output_location_model(x as int, y as int),
            r.material == material,
            r.amount == amount,
    {
        AssemblerOutput { location: InputLocation::output(x, y), material, amount }
    }
}

impl Distributor {
    /// The input locations as mathematical values.
    pub open spec fn input_models(&self) -> Seq<((int, int), int)> {
        self.inputs@.map_values(|l: InputLocation| l@)
    }

    /// The output locations as mathematical values.
    pub open spec fn output_models(&self) -> Seq<((int, int), int)> {
        self.outputs@.map_values(|l: InputLocation| l@)
    }
}

impl Assembler {
    /// The inputs as mathematical values: (material, cost, location).
    pub open spec fn input_models(&self) -> Seq<(Material, int, ((int, int), int))> {
        self.inputs@.map_values(|i: AssemblerInput| (i.material, i.cost as int, i.location@))
    }

    /// The outputs as mathematical values: (material, amount, location).
    pub open spec fn output_models(&self) -> Seq<(Material, int, ((int, int), int))> {
        self.outputs@.map_values(|o: AssemblerOutput| (o.material, o.amount as int, o.location@))
    }
}

/// The conveyor: inputs from the left, bottom and top, one output to the right.
pub fn conveyor() -> (r: MachineType)
    ensures
        machine_type_valid(r),
        r matches MachineType::Distributor(d) && {
            &&& d.info.name@ == "Conveyor"@
            &&& d.info.icon@ == "conveyor"@
            &&& d.info.radius == 1
            &&& d.info.cost@ == seq![(1i64, Material::Iron)]
            &&& d.input_models() == seq![
                input_location_model(-1, 0),
                input_location_model(0, -1),
                input_location_model(0, 1),
            ]
            &&& d.output_models() == seq![output_location_model(1, 0)]
        },
{
    let d = Distributor {
        info: StandardMachineInfo::new("Conveyor", "conveyor", 1, vec![(1, Material::Iron)]),
        inputs: vec![
            InputLocation::input(-1, 0),
            InputLocation::input(0, -1),
            InputLocation::input(0, 1),
        ],
        outputs: vec![InputLocation::output(1, 0)],
    };
    assert(d.input_models() =~= seq![
        input_location_model(-1, 0),
        input_location_model(0, -1),
        input_location_model(0, 1),
    ]);
    assert(d.output_models() =~= seq![output_location_model(1, 0)]);
    MachineType::Distributor(d)
}

/// The splitter: one input from the left, outputs to the top and bottom.
pub fn splitter() -> (r: MachineType)
    ensures
        machine_type_valid(r),
        r matches MachineType::Distributor(d) && {
            &&& d.info.name@ == "Splitter"@
            &&& d.info.icon@ == "splitter"@
            &&& d.info.radius == 1
            &&& d.info.cost@ == seq![(1i64, Material::Iron)]
            &&& d.input_models() == seq![input_location_model(-1, 0)]
            &&& d.output_models() == seq![
                output_location_model(0, 1),
                output_location_model(0, -1),
            ]
        },
{
    let d = Distributor {
        info: StandardMachineInfo::new("Splitter", "splitter", 1, vec![(1, Material::Iron)]),
        inputs: vec![InputLocation::input(-1, 0)],
        outputs: vec![InputLocation::output(0, 1), InputLocation::output(0, -1)],
    };
    assert(d.input_models() =~= seq![input_location_model(-1, 0)]);
    assert(d.output_models() =~= seq![output_location_model(0, 1), output_location_model(0, -1)]);
    MachineType::Distributor(d)
}

/// The iron smelter: 3 iron ore in from the left make 2 iron out to the right.
pub fn iron_smelter() -> (r: MachineType)
    ensures
        machine_type_valid(r),
        r matches MachineType::Assembler(a) && {
            &&& a.info.name@ == "Iron smelter"@
            &&& a.info.icon@ == "machine"@
            &&& a.info.radius == 3
            &&& a.info.cost@ == seq![(5i64, Material::Iron)]
            &&& a.input_models() == seq![(Material::IronOre, 3int, input_location_model(-3, 0))]
            &&& a.output_models() == seq![(Material::Iron, 2int, output_location_model(3, 0))]
            &&& a.assembly_duration == 10 * TIME_TO_MOVE_MATERIAL
        },
{
    let a = Assembler {
        info: StandardMachineInfo::new("Iron smelter", "machine", 3, vec![(5, Material::Iron)]),
        inputs: vec![AssemblerInput::new(-3, 0, Material::IronOre, 3)],
        outputs: vec![AssemblerOutput::new(3, 0, Material::Iron, 2)],
        assembly_duration: 10 * TIME_TO_MOVE_MATERIAL,
    };
    assert(a.input_models() =~= seq![(Material::IronOre, 3int, input_location_model(-3, 0))]);
    assert(a.output_models() =~= seq![(Material::Iron, 2int, output_location_model(3, 0))]);
    MachineType::Assembler(a)
}

/// The iron mine: no inputs, 1 iron ore out to the right per assembly.
pub fn iron_mine() -> (r: MachineType)
    ensures
        machine_type_valid(r),
        r matches MachineType::Assembler(a) && {
            &&& a.info.name@ == "Iron mine"@
            &&& a.info.icon@ == "mine"@
            &&& a.info.radius == 3
            &&& a.info.cost@ == seq![(50i64, Material::Iron)]
            &&& a.input_models() == Seq::<(Material, int, ((int, int), int))>::empty()
            &&& a.output_models() == seq![(Material::IronOre, 1int, output_location_model(3, 0))]
            &&& a.assembly_duration == TIME_TO_MOVE_MATERIAL
        },
{
    let a = Assembler {
        info: StandardMachineInfo::new("Iron mine", "mine", 3, vec![(50, Material::Iron)]),
        inputs: Vec::new(),
        outputs: vec![AssemblerOutput::new(3, 0, Material::IronOre, 1)],
        assembly_duration: TIME_TO_MOVE_MATERIAL,
    };
    assert(a.input_models() =~= Seq::<(Material, int, ((int, int), int))>::empty());
    assert(a.output_models() =~= seq![(Material::IronOre, 1int, output_location_model(3, 0))]);
    MachineType::Assembler(a)
}

/// Division rounding towards zero, as Rust's `/` on integers does.
pub open spec fn div_toward_zero(a: int, d: int) -> int {
    if (a >= 0) == (d > 0) {
        crate::geometry::abs_int(a) / crate::geometry::abs_int(d)
    } else {
        -(crate::geometry::abs_int(a) / crate::geometry::abs_int(d))
    }
}

/// The smaller of two integers.
pub open spec fn smaller(a: int, b: int) -> int {
    if a <= b {
        a
    } else {
        b
    }
}

/// The larger of two integers.
pub open spec fn larger(a: int, b: int) -> int {
    if a >= b {
        a
    } else {
        b
    }
}

/// What a distributor will do: the flow at each output, when its inputs first deliver, and the
/// one material it passes on.
#[derive(Clone, PartialEq, Eq, Hash, Debug)]
pub struct DistributorFuture {
    pub outputs: Vec<FlowPattern>,
    pub output_availability_start: Number,
    pub material: Material,
}

/// No input flow is present.
pub open spec fn no_input(flows: Seq<Option<MaterialFlow>>) -> bool {
    forall|i: int| 0 <= i < flows.len() ==> (#[trigger] flows[i]) is None
}

/// Every present input flow carries `material`.
pub open spec fn all_carry(flows: Seq<Option<MaterialFlow>>, material: Material) -> bool {
    forall|i: int|
        0 <= i < flows.len() ==> ((#[trigger] flows[i]) matches Some(f) ==> f.material == material)
}

/// `t` is the latest of `times` at the positions where a flow is present.
pub open spec fn latest_where_present(
    flows: Seq<Option<MaterialFlow>>,
    times: Seq<i64>,
    t: int,
) -> bool {
    &&& exists|i: int| 0 <= i < flows.len() && (#[trigger] flows[i]) is Some && times[i] == t
    &&& forall|i: int| 0 <= i < flows.len() && (#[trigger] flows[i]) is Some ==> times[i] <= t
}

/// The summed rate of the present flows.
pub open spec fn total_present_rate(flows: Seq<Option<MaterialFlow>>) -> int
    decreases flows.len(),
{
    if flows.len() == 0 {
        0
    } else {
        total_present_rate(flows.drop_last()) + match flows.last() {
            Some(f) => f.flow@.1,
            None => 0,
        }
    }
}

/// `times` holds, for each present flow, its first disbursement at or after `start_time`.
pub open spec fn first_disbursements_of(
    flows: Seq<Option<MaterialFlow>>,
    times: Seq<i64>,
    start_time: int,
) -> bool {
    &&& times.len() == flows.len()
    &&& forall|i: int|
        0 <= i < flows.len() ==> ((#[trigger] flows[i]) matches Some(f) ==> times[i]
            == first_disbursement_geq(f.flow@.0, f.flow@.1, start_time))
}

/// The summed rate of the present flows; `None` exactly where it leaves `i64`.
pub fn total_rate_of(flows: &[Option<MaterialFlow>]) -> (r: Option<Number>)
    ensures
        r is Some <==> in_i64(total_present_rate(flows@)),
        r matches Some(t) ==> t == total_present_rate(flows@),
{
    let mut total: i128 = 0;
    let mut i: usize = 0;
    while i < flows.len()
        invariant
            i <= flows@.len(),
            total == total_present_rate(flows@.take(i as int)),
            0 <= total <= i * 0x8000_0000_0000_0000,
        decreases flows@.len() - i,
    {
        assert(flows@.take(i + 1).drop_last() =~= flows@.take(i as int));
        if let Some(f) = flows[i] {
            total = total + f.flow.rate() as i128;
        }
        i = i + 1;
    }
    assert(flows@.take(flows@.len() as int) =~= flows@);
    if total > i64::MAX as i128 {
        None
    } else {
        Some(total as i64)
    }
}

/// For each present flow, its first disbursement at or after `start_time`; 0 where no flow is
/// present.
pub open spec fn first_times(flows: Seq<Option<MaterialFlow>>, start_time: int) -> Seq<i64> {
    Seq::new(
        flows.len(),
        |i: int|
            match flows[i] {
                Some(f) => first_disbursement_geq(f.flow@.0, f.flow@.1, start_time) as i64,
                None => 0i64,
            },
    )
}

/// Every present flow has a positive rate and its first disbursement at or after `start_time`
/// fits in `i64`.
pub open spec fn first_disbursements_computable(flows: Seq<Option<MaterialFlow>>, start_time: int) -> bool {
    forall|i: int|
        0 <= i < flows.len() ==> ((#[trigger] flows[i]) matches Some(f) ==> f.flow@.1 > 0
            && nth_geq_fits(f.flow@.0, f.flow@.1, 0, start_time))
}

/// For each present flow, its first disbursement at or after `start_time`, and 0 where no flow
/// is present; `None` exactly where that cannot be computed.
pub fn first_disbursements_of_flows(flows: &[Option<MaterialFlow>], start_time: Number) -> (r:
    Option<Vec<Number>>)
    ensures
        r is Some <==> first_disbursements_computable(flows@, start_time as int),
        r matches Some(v) ==> first_disbursements_of(flows@, v@, start_time as int) && v@ == first_times(
            flows@,
            start_time as int,
        ),
{
    let mut times: Vec<Number> = Vec::new();
    let mut i: usize = 0;
    while i < flows.len()
        invariant
            i <= flows@.len(),
            times@.len() == i,
            forall|j: int|
                0 <= j < i ==> ((#[trigger] flows@[j]) matches Some(f) ==> f.flow@.1 > 0
                    && nth_geq_fits(f.flow@.0, f.flow@.1, 0, start_time as int) && times@[j]
                    == first_disbursement_geq(f.flow@.0, f.flow@.1, start_time as int)),
            forall|j: int| 0 <= j < i ==> (#[trigger] flows@[j]) is None ==> times@[j] == 0,
        decreases flows@.len() - i,
    {
        match flows[i] {
            Some(f) => {
                if f.flow.rate() <= 0 {
                    assert(!first_disbursements_computable(flows@, start_time as int)) by {
                        assert(flows@[i as int] == Some(f));
                    }
                    return None;
                }
                match f.first_disbursement_time_geq(start_time) {
                    Some(t) => {
                        times.push(t);
                    },
                    None => {
                        assert(!first_disbursements_computable(flows@, start_time as int)) by {
                            assert(flows@[i as int] == Some(f));
                        }
                        return None;
                    },
                }
            },
            None => {
                times.push(0);
            },
        }
        i = i + 1;
    }
    assert(times@ =~= first_times(flows@, start_time as int));
    Some(times)
}

/// A distributor's rate per output: as fast as a conveyor, or the input rate shared out evenly.
pub open spec fn per_output_rate(total_input_rate: int, num_outputs: int) -> int {
    smaller(RATE_DIVISOR / TIME_TO_MOVE_MATERIAL, div_toward_zero(total_input_rate, num_outputs))
}

/// The time between the starts of successive outputs: one output period at the total output
/// rate, rounded up.
pub open spec fn latency_between_outputs(per_output: int, num_outputs: int) -> int {
    (RATE_DIVISOR + per_output * num_outputs - 1) / (per_output * num_outputs)
}

/// The values a distributor's future is computed from fit the computation.
pub open spec fn distributor_future_fits(
    num_outputs: int,
    flows: Seq<Option<MaterialFlow>>,
    total_input_rate: int,
    first_disbursements: Seq<i64>,
    start_time: int,
) -> bool {
    &&& 0 < num_outputs <= MAX_MACHINE_INPUTS
    &&& total_input_rate >= 0
    &&& first_disbursements.len() == flows.len()
    &&& forall|i: int|
        0 <= i < flows.len() && (#[trigger] flows[i]) is Some ==> start_time
            <= first_disbursements[i] && first_disbursements[i] + TIME_TO_MOVE_MATERIAL + (
        MAX_MACHINE_INPUTS as int) * RATE_DIVISOR <= i64::MAX
}

/// What `future` returns, as a relation between its arguments and its result.
pub open spec fn distributor_future_ok(d: Distributor, flows: Seq<Option<MaterialFlow>>, total_input_rate: int, first_disbursements: Seq<i64>, start_time: int, r: Result<DistributorFuture, MachineOperatingState>) -> bool {
    &&& r != Err::<DistributorFuture, MachineOperatingState>(MachineOperatingState::Operating)
    &&& no_input(flows) <==> r == Err::<DistributorFuture, MachineOperatingState>(
        MachineOperatingState::InputMissing,
    )
    &&& !no_input(flows) ==> ((r == Err::<DistributorFuture, MachineOperatingState>(
        MachineOperatingState::InputIncompatible)) <==> !exists|m: Material|
        all_carry(flows, m))
    &&& r == Err::<DistributorFuture, MachineOperatingState>(
        MachineOperatingState::InputTooInfrequent,
    ) <==> (!no_input(flows) && (exists|m: Material|
        all_carry(flows, m)) && per_output_rate(
        total_input_rate as int,
        d.outputs@.len() as int,
    ) == 0)
    &&& (!no_input(flows) && (exists|m: Material| all_carry(flows, m)) && per_output_rate(
        total_input_rate as int,
        d.outputs@.len() as int,
    ) > 0) ==> r is Ok
    &&& r matches Ok(future) ==> {
        let per = per_output_rate(total_input_rate as int, d.outputs@.len() as int);
        let latency = latency_between_outputs(per, d.outputs@.len() as int);
        &&& !no_input(flows)
        &&& all_carry(flows, future.material)
        &&& per > 0
        &&& latest_where_present(
            flows,
            first_disbursements,
            future.output_availability_start as int,
        )
        &&& future.outputs@.len() == d.outputs@.len()
        &&& forall|k: int|
            0 <= k < future.outputs@.len() ==> (#[trigger] future.outputs@[k])@ == (
                future.output_availability_start + TIME_TO_MOVE_MATERIAL + k * latency,
                per,
            )
    }
    &&& r matches Ok(future) ==> forall|k: int|
        0 <= k < future.outputs@.len() ==> (#[trigger] future.outputs@[k])@.0
            >= start_time
}

impl Distributor {
    /// What the distributor does with its inputs: it needs at least one input, all carrying one
    /// material, and enough flow to give every output a positive rate; then each output flows
    /// at the shared rate, starting one move after the inputs' first deliveries (the latest of
    /// `first_disbursements`, the first delivery of each present input at or after the start
    /// time), each output one latency after the one before.
    pub fn future(
        &self,
        inputs: MachineObservedInputs,
        total_input_rate: Number,
        first_disbursements: &[Number],
    ) -> (r: Result<DistributorFuture, MachineOperatingState>)
        requires
            distributor_future_fits(
                self.outputs@.len() as int,
                inputs.input_flows@,
                total_input_rate as int,
                first_disbursements@,
                inputs.start_time as int,
            ),
            total_input_rate == total_present_rate(inputs.input_flows@),
            first_disbursements_of(
                inputs.input_flows@,
                first_disbursements@,
                inputs.start_time as int,
            ),
        ensures
            distributor_future_ok(*self, inputs.input_flows@, total_input_rate as int, first_disbursements@, inputs.start_time as int, r),

    {
        let flows = inputs.input_flows;
        let mut material: Option<Material> = None;
        let mut i: usize = 0;
        while i < flows.len()
            invariant
                i <= flows.len(),
                flows@ == inputs.input_flows@,
                material is None <==> forall|j: int| 0 <= j < i ==> (#[trigger] flows@[j]) is None,
                material matches Some(m) ==> all_carry(flows@.take(i as int), m),
                material matches Some(m) ==> exists|j: int|
                    0 <= j < i && (#[trigger] flows@[j]) is Some && flows@[j].unwrap().material == m,
            decreases flows.len() - i,
        {
            if let Some(flow) = &flows[i] {
                assert(flows@[i as int] == Some(*flow));
                match material {
                    None => {
                        material = Some(flow.material);
                    },
                    Some(m) => {
                        if flow.material != m {
                            proof {
                                let j = choose|j: int|
                                    0 <= j < i && (#[trigger] flows@[j]) is Some
                                        && flows@[j].unwrap().material == m;
                                assert forall|m2: Material| !all_carry(flows@, m2) by {
                                    if all_carry(flows@, m2) {
                                        assert(flows@[j] is Some);
                                        assert(flows@[i as int] is Some);
                                    }
                                }
                                assert(flows@[i as int] is Some);
                                assert(!no_input(inputs.input_flows@));
                                assert(!exists|m2: Material| all_carry(inputs.input_flows@, m2));
                            }
                            return Err(MachineOperatingState::InputIncompatible);
                        }
                    },
                }
            }
            proof {
                if let Some(m) = material {
                    assert forall|j: int| 0 <= j < i + 1 implies ((#[trigger] flows@.take(
                        i + 1,
                    )[j]) matches Some(f) ==> f.material == m) by {
                        if j < i {
                            assert(flows@.take(i + 1)[j] == flows@.take(i as int)[j]);
                        }
                    }
                }
            }
            i = i + 1;
        }
        assert(flows@.take(flows@.len() as int) =~= flows@);
        let material = match material {
            None => {
                return Err(MachineOperatingState::InputMissing);
            },
            Some(m) => m,
        };
        let num_outputs = self.outputs.len() as Number;
        let conveyor_rate = RATE_DIVISOR / TIME_TO_MOVE_MATERIAL;
        let shared_rate = total_input_rate / num_outputs;
        let per_output = if conveyor_rate <= shared_rate {
            conveyor_rate
        } else {
            shared_rate
        };
        proof {
            assert(no_input(flows@) == false);
            assert(all_carry(flows@, material));
        }
        if per_output == 0 {
            return Err(MachineOperatingState::InputTooInfrequent);
        }
        proof {
            assert(per_output > 0);
            assert(per_output * num_outputs <= RATE_DIVISOR) by (nonlinear_arith)
                requires
                    0 < per_output <= RATE_DIVISOR / TIME_TO_MOVE_MATERIAL,
                    0 < num_outputs <= MAX_MACHINE_INPUTS,
            ;
            assert(per_output * num_outputs >= 1) by (nonlinear_arith)
                requires
                    per_output >= 1,
                    num_outputs >= 1,
            ;
        }
        let total_output_rate = per_output * num_outputs;
        let latency = (RATE_DIVISOR + total_output_rate - 1) / total_output_rate;
        proof {
            assert(RATE_DIVISOR + total_output_rate - 1 <= RATE_DIVISOR * total_output_rate) by (
            nonlinear_arith)
                requires
                    total_output_rate >= 1,
                    RATE_DIVISOR >= 1,
            ;
            crate::arith::lemma_floor_div_monotone(
                RATE_DIVISOR + total_output_rate - 1,
                RATE_DIVISOR * total_output_rate,
                total_output_rate as int,
            );
            crate::arith::lemma_floor_div_add_multiple(0, RATE_DIVISOR as int, total_output_rate as int);
            assert(latency <= RATE_DIVISOR);
            assert(latency >= 1) by {
                crate::arith::lemma_floor_div_monotone(
                    total_output_rate as int,
                    RATE_DIVISOR + total_output_rate - 1,
                    total_output_rate as int,
                );
                crate::arith::lemma_floor_div_add_multiple(0, 1, total_output_rate as int);
            }
        }
        let mut availability: Option<Number> = None;
        let mut i: usize = 0;
        while i < flows.len()
            invariant
                i <= flows.len(),
                flows@ == inputs.input_flows@,
                first_disbursements@.len() == flows@.len(),
                !no_input(flows@),
                availability is None <==> forall|j: int| 0 <= j < i ==> (#[trigger] flows@[j]) is None,
                availability matches Some(t) ==> {
                    &&& exists|j: int|
                        0 <= j < i && (#[trigger] flows@[j]) is Some && first_disbursements@[j] == t
                    &&& forall|j: int|
                        0 <= j < i && (#[trigger] flows@[j]) is Some ==> first_disbursements@[j] <= t
                },
            decreases flows.len() - i,
        {
            if flows[i].is_some() {
                let t = first_disbursements[i];
                match availability {
                    None => {
                        availability = Some(t);
                    },
                    Some(best) => {
                        if t >= best {
                            availability = Some(t);
                        }
                    },
                }
            }
            i = i + 1;
        }
        let output_availability_start = match availability {
            Some(t) => t,
            None => {
                proof {
                    assert(no_input(flows@));
                }
                0
            },
        };
        let ghost witness = choose|j: int|
            0 <= j < flows@.len() && (#[trigger] flows@[j]) is Some && first_disbursements@[j]
                == output_availability_start;
        assert(output_availability_start + TIME_TO_MOVE_MATERIAL + (MAX_MACHINE_INPUTS as int)
            * RATE_DIVISOR <= i64::MAX) by {
            assert(flows@[witness] is Some);
        }
        let first_output_start = output_availability_start + TIME_TO_MOVE_MATERIAL;
        let mut outputs: Vec<FlowPattern> = Vec::new();
        let mut k: usize = 0;
        while k < self.outputs.len()
            invariant
                k <= self.outputs.len(),
                self.outputs@.len() <= MAX_MACHINE_INPUTS,
                num_outputs == self.outputs@.len(),
                outputs@.len() == k,
                1 <= latency <= RATE_DIVISOR,
                per_output > 0,
                first_output_start + (MAX_MACHINE_INPUTS as int) * RATE_DIVISOR <= i64::MAX,
                first_output_start >= i64::MIN + 1,
                forall|j: int|
                    0 <= j < k ==> (#[trigger] outputs@[j])@ == (
                        first_output_start + j * latency,
                        per_output as int,
                    ),
            decreases self.outputs.len() - k,
        {
            proof {
                assert(k * latency <= (MAX_MACHINE_INPUTS as int) * (2 * RATE_DIVISOR) / 2) by (
                nonlinear_arith)
                    requires
                        0 <= k < MAX_MACHINE_INPUTS,
                        1 <= latency <= RATE_DIVISOR,
                ;
            }
            let offset = (k as Number) * latency;
            outputs.push(FlowPattern::new(first_output_start + offset, per_output));
            k = k + 1;
        }
        proof {
            assert(total_input_rate / num_outputs == div_toward_zero(
                total_input_rate as int,
                num_outputs as int,
            ));
        }
        Ok(DistributorFuture { outputs, output_availability_start, material })
    }

    /// The distributor's outputs: each output pattern of the future, carrying its material.
    pub fn output_flows(&self, future: &DistributorFuture) -> (r: Vec<Option<MaterialFlow>>)
        ensures
            r@.len() == future.outputs@.len(),
            forall|k: int|
                0 <= k < r@.len() ==> (#[trigger] r@[k]) == Some(
                    MaterialFlow { material: future.material, flow: future.outputs@[k] },
                ),
    {
        let mut result: Vec<Option<MaterialFlow>> = Vec::new();
        let mut k: usize = 0;
        while k < future.outputs.len()
            invariant
                k <= future.outputs.len(),
                result@.len() == k,
                forall|j: int|
                    0 <= j < k ==> (#[trigger] result@[j]) == Some(
                        MaterialFlow { material: future.material, flow: future.outputs@[j] },
                    ),
            decreases future.outputs.len() - k,
        {
            result.push(Some(MaterialFlow { material: future.material, flow: future.outputs[k] }));
            k = k + 1;
        }
        result
    }
}

/// What an assembler will do: when and how often it starts assembling, and the flow at each
/// output.
#[derive(Clone, PartialEq, Eq, Hash, Debug)]
pub struct AssemblerFuture {
    pub assembly_start_pattern: FlowPattern,
    pub outputs: Vec<FlowPattern>,
}

impl AssemblerFuture {
    /// What an assembler shows at `time`: it is operating from one material move before its
    /// first assembly starts, and waiting for input before that.
    pub fn momentary_operating_state(&self, time: Number) -> (r: MachineOperatingState)
        ensures
            r == (if time >= self.assembly_start_pattern@.0 - TIME_TO_MOVE_MATERIAL {
                MachineOperatingState::Operating
            } else {
                MachineOperatingState::WaitingForInput
            }),
    {
        let start = self.assembly_start_pattern.start_time();
        if (time as i128) >= (start as i128) - (TIME_TO_MOVE_MATERIAL as i128) {
            MachineOperatingState::Operating
        } else {
            MachineOperatingState::WaitingForInput
        }
    }
}

/// The number of inputs an assembler looks at: those it has that are also observed.
pub open spec fn assembler_inputs_seen(a: Assembler, flows: Seq<Option<MaterialFlow>>) -> nat {
    if a.inputs@.len() <= flows.len() {
        a.inputs@.len()
    } else {
        flows.len()
    }
}

/// What is wrong with input `i` of an assembler, if anything: no flow, or the wrong material.
pub open spec fn input_problem(a: Assembler, flows: Seq<Option<MaterialFlow>>, i: int) -> Option<
    MachineOperatingState,
> {
    match flows[i] {
        None => Some(MachineOperatingState::InputMissing),
        Some(f) => if f.material != a.inputs@[i].material {
            Some(MachineOperatingState::InputIncompatible)
        } else {
            None
        },
    }
}

/// The problem with the first of the first `n` inputs that has one.
pub open spec fn first_input_problem(a: Assembler, flows: Seq<Option<MaterialFlow>>, n: nat) -> Option<
    MachineOperatingState,
>
    decreases n,
{
    if n == 0 {
        None
    } else {
        match first_input_problem(a, flows, (n - 1) as nat) {
            Some(p) => Some(p),
            None => input_problem(a, flows, n - 1),
        }
    }
}

/// The assembly rate the first `n` inputs allow: one assembly per `assembly_duration`, lowered
/// to each input's rate divided by its cost.
pub open spec fn assembly_rate_allowed(a: Assembler, flows: Seq<Option<MaterialFlow>>, n: nat) -> int
    decreases n,
{
    if n == 0 {
        (RATE_DIVISOR as int) / (a.assembly_duration as int)
    } else {
        smaller(
            assembly_rate_allowed(a, flows, (n - 1) as nat),
            flows[n - 1].unwrap().flow@.1 / (a.inputs@[n - 1].cost as int),
        )
    }
}

/// The first assembly start the first `n` inputs allow: not before `start_time`, nor before each
/// input's items for one assembly have arrived (`ready_times`) and moved in.
pub open spec fn assembly_start_allowed(start_time: int, ready_times: Seq<i64>, n: nat) -> int
    decreases n,
{
    if n == 0 {
        start_time
    } else {
        larger(
            assembly_start_allowed(start_time, ready_times, (n - 1) as nat),
            ready_times[n - 1] + TIME_TO_MOVE_MATERIAL,
        )
    }
}

/// `ready_times` holds, for each input the assembler looks at whose flow is present, the time
/// at which that flow's items for one assembly have arrived: its disbursement number
/// `cost - 1` at or after `start_time`.
pub open spec fn ready_times_of(
    a: Assembler,
    flows: Seq<Option<MaterialFlow>>,
    ready_times: Seq<i64>,
    start_time: int,
) -> bool {
    &&& ready_times.len() == flows.len()
    &&& forall|i: int|
        0 <= i < assembler_inputs_seen(a, flows) ==> ((#[trigger] flows[i]) matches Some(f)
            ==> ready_times[i] == nth_disbursement_geq(
            f.flow@.0,
            f.flow@.1,
            a.inputs@[i].cost - 1,
            start_time,
        ))
}

/// For each input the assembler looks at whose flow is present, when its items for one
/// assembly have arrived; 0 elsewhere.
pub open spec fn ready_times_spec(a: Assembler, flows: Seq<Option<MaterialFlow>>, start_time: int) -> Seq<
    i64,
> {
    Seq::new(
        flows.len(),
        |i: int|
            if i < assembler_inputs_seen(a, flows) && flows[i] is Some {
                nth_disbursement_geq(
                    flows[i].unwrap().flow@.0,
                    flows[i].unwrap().flow@.1,
                    a.inputs@[i].cost - 1,
                    start_time,
                ) as i64
            } else {
                0i64
            },
    )
}

/// Every input the assembler looks at whose flow is present has a positive cost and rate, and
/// the arrival of its items for one assembly fits in `i64`.
pub open spec fn ready_times_computable(
    a: Assembler,
    flows: Seq<Option<MaterialFlow>>,
    start_time: int,
) -> bool {
    forall|i: int|
        0 <= i < assembler_inputs_seen(a, flows) ==> ((#[trigger] flows[i]) matches Some(f) ==> {
            &&& a.inputs@[i].cost >= 1
            &&& f.flow@.1 > 0
            &&& nth_geq_fits(f.flow@.0, f.flow@.1, a.inputs@[i].cost - 1, start_time)
        })
}

impl Assembler {
    /// For each input the assembler looks at whose flow is present, when its items for one
    /// assembly have arrived (0 elsewhere); `None` exactly where that cannot be computed.
    pub fn ready_times(&self, flows: &[Option<MaterialFlow>], start_time: Number) -> (r: Option<
        Vec<Number>,
    >)
        ensures
            r is Some <==> ready_times_computable(*self, flows@, start_time as int),
            r matches Some(v) ==> ready_times_of(*self, flows@, v@, start_time as int) && v@
                == ready_times_spec(*self, flows@, start_time as int),
    {
        let n = if self.inputs.len() <= flows.len() {
            self.inputs.len()
        } else {
            flows.len()
        };
        let mut times: Vec<Number> = Vec::new();
        let mut i: usize = 0;
        while i < flows.len()
            invariant
                i <= flows@.len(),
                n == assembler_inputs_seen(*self, flows@),
                n <= self.inputs@.len(),
                times@.len() == i,
                forall|j: int|
                    0 <= j < i && j < n ==> ((#[trigger] flows@[j]) matches Some(f) ==> {
                        &&& self.inputs@[j].cost >= 1
                        &&& f.flow@.1 > 0
                        &&& nth_geq_fits(f.flow@.0, f.flow@.1, self.inputs@[j].cost - 1, start_time as int)
                        &&& times@[j] == nth_disbursement_geq(
                            f.flow@.0,
                            f.flow@.1,
                            self.inputs@[j].cost - 1,
                            start_time as int,
                        )
                    }),
            forall|j: int|
                0 <= j < i && !(j < n && (#[trigger] flows@[j]) is Some) ==> times@[j] == 0,
            decreases flows@.len() - i,
        {
            if i < n {
                match flows[i] {
                    Some(f) => {
                        let cost = self.inputs[i].cost;
                        if cost < 1 || f.flow.rate() <= 0 {
                            assert(!ready_times_computable(*self, flows@, start_time as int)) by {
                                assert(flows@[i as int] == Some(f));
                            }
                            return None;
                        }
                        match f.nth_disbursement_time_geq(cost - 1, start_time) {
                            Some(t) => {
                                times.push(t);
                            },
                            None => {
                                assert(!ready_times_computable(*self, flows@, start_time as int)) by {
                                    assert(flows@[i as int] == Some(f));
                                }
                                return None;
                            },
                        }
                    },
                    None => {
                        times.push(0);
                    },
                }
            } else {
                times.push(0);
            }
            i = i + 1;
        }
        assert(times@ =~= ready_times_spec(*self, flows@, start_time as int));
        Some(times)
    }
}

/// The values an assembler's future is computed from fit the computation.
pub open spec fn assembler_future_fits(
    a: Assembler,
    flows: Seq<Option<MaterialFlow>>,
    ready_times: Seq<i64>,
    start_time: int,
) -> bool {
    &&& a.assembly_duration > 0
    &&& ready_times.len() == flows.len()
    &&& forall|i: int| 0 <= i < a.inputs@.len() ==> (#[trigger] a.inputs@[i]).cost > 0
    &&& forall|j: int|
        0 <= j < a.outputs@.len() ==> (#[trigger] a.outputs@[j]).amount > 0
            && RATE_DIVISOR * a.outputs@[j].amount <= i64::MAX
    &&& forall|i: int|
        0 <= i < flows.len() ==> (#[trigger] ready_times[i]) + TIME_TO_MOVE_MATERIAL
            + a.assembly_duration + TIME_TO_MOVE_MATERIAL <= i64::MAX
    &&& start_time + a.assembly_duration + TIME_TO_MOVE_MATERIAL <= i64::MAX
}

proof fn lemma_assembly_rate_bounds(a: Assembler, flows: Seq<Option<MaterialFlow>>, n: nat)
    requires
        a.assembly_duration > 0,
        n <= a.inputs@.len(),
        n <= flows.len(),
        forall|i: int| 0 <= i < a.inputs@.len() ==> (#[trigger] a.inputs@[i]).cost > 0,
        forall|i: int| 0 <= i < n ==> (#[trigger] flows[i]) is Some && flows[i].unwrap().flow@.1 >= 0,
    ensures
        0 <= assembly_rate_allowed(a, flows, n) <= RATE_DIVISOR,
    decreases n,
{
    if n == 0 {
        assert(RATE_DIVISOR <= RATE_DIVISOR * (a.assembly_duration as int)) by (nonlinear_arith)
            requires
                a.assembly_duration >= 1,
        ;
        crate::arith::lemma_floor_div_monotone(
            RATE_DIVISOR as int,
            RATE_DIVISOR * (a.assembly_duration as int),
            a.assembly_duration as int,
        );
        crate::arith::lemma_floor_div_add_multiple(
            0,
            RATE_DIVISOR as int,
            a.assembly_duration as int,
        );
        crate::arith::lemma_floor_div_monotone(
            0,
            RATE_DIVISOR as int,
            a.assembly_duration as int,
        );
    } else {
        lemma_assembly_rate_bounds(a, flows, (n - 1) as nat);
        let f = flows[n - 1].unwrap();
        crate::arith::lemma_floor_div_monotone(0, f.flow@.1, a.inputs@[n - 1].cost as int);
    }
}

proof fn lemma_start_not_before(start_time: int, ready_times: Seq<i64>, n: nat)
    ensures
        assembly_start_allowed(start_time, ready_times, n) >= start_time,
    decreases n,
{
    if n > 0 {
        lemma_start_not_before(start_time, ready_times, (n - 1) as nat);
    }
}

/// An assembler's first assembly waits for every input it looks at: it starts neither before
/// `start_time` nor before any of those inputs' items for one assembly have arrived and moved
/// in (`ready_times[i] + TIME_TO_MOVE_MATERIAL`), and it starts at the latest of these times.
pub proof fn law_assembly_waits_for_every_input(start_time: int, ready_times: Seq<i64>, n: nat)
    requires
        n <= ready_times.len(),
    ensures
        assembly_start_allowed(start_time, ready_times, n) >= start_time,
        forall|i: int|
            0 <= i < n ==> assembly_start_allowed(start_time, ready_times, n) >= #[trigger] ready_times[i]
                + TIME_TO_MOVE_MATERIAL,
        assembly_start_allowed(start_time, ready_times, n) == start_time || exists|i: int|
            0 <= i < n && assembly_start_allowed(start_time, ready_times, n) == #[trigger] ready_times[i]
                + TIME_TO_MOVE_MATERIAL,
    decreases n,
{
    if n > 0 {
        law_assembly_waits_for_every_input(start_time, ready_times, (n - 1) as nat);
        let before = assembly_start_allowed(start_time, ready_times, (n - 1) as nat);
        let last = ready_times[n - 1] + TIME_TO_MOVE_MATERIAL;
        assert(assembly_start_allowed(start_time, ready_times, n) == larger(before, last));
        if before < last {
            assert(ready_times[n - 1] + TIME_TO_MOVE_MATERIAL == last);
        } else if before != start_time {
            let i = choose|i: int|
                0 <= i < n - 1 && before == #[trigger] ready_times[i] + TIME_TO_MOVE_MATERIAL;
            assert(ready_times[i] + TIME_TO_MOVE_MATERIAL == before);
        }
    }
}

/// An assembler's rate is held back by every input it looks at: it is at most one assembly per
/// `assembly_duration` and at most each of those inputs' rates divided by its cost, and it is
/// one of these.
pub proof fn law_assembly_rate_is_the_tightest_limit(a: Assembler, flows: Seq<Option<MaterialFlow>>, n: nat)
    ensures
        assembly_rate_allowed(a, flows, n) <= (RATE_DIVISOR as int) / (a.assembly_duration as int),
        forall|i: int|
            0 <= i < n ==> assembly_rate_allowed(a, flows, n) <= (#[trigger] flows[i]).unwrap().flow@.1
                / (a.inputs@[i].cost as int),
        assembly_rate_allowed(a, flows, n) == (RATE_DIVISOR as int) / (a.assembly_duration as int)
            || exists|i: int|
            0 <= i < n && assembly_rate_allowed(a, flows, n) == (#[trigger] flows[i]).unwrap().flow@.1
                / (a.inputs@[i].cost as int),
    decreases n,
{
    if n > 0 {
        law_assembly_rate_is_the_tightest_limit(a, flows, (n - 1) as nat);
        let before = assembly_rate_allowed(a, flows, (n - 1) as nat);
        let last = flows[n - 1].unwrap().flow@.1 / (a.inputs@[n - 1].cost as int);
        if last < before {
            assert(assembly_rate_allowed(a, flows, n) == flows[n - 1].unwrap().flow@.1 / (a.inputs@[n - 1].cost as int));
        } else if before != (RATE_DIVISOR as int) / (a.assembly_duration as int) {
            let i = choose|i: int|
                0 <= i < n - 1 && before == (#[trigger] flows[i]).unwrap().flow@.1 / (a.inputs@[i].cost as int);
            assert(assembly_rate_allowed(a, flows, n) == flows[i].unwrap().flow@.1 / (a.inputs@[i].cost as int));
        }
    }
}

proof fn lemma_first_problem_stays(
    a: Assembler,
    flows: Seq<Option<MaterialFlow>>,
    k: nat,
    m: nat,
)
    requires
        k <= m,
        first_input_problem(a, flows, k) is Some,
    ensures
        first_input_problem(a, flows, m) == first_input_problem(a, flows, k),
    decreases m - k,
{
    if k < m {
        lemma_first_problem_stays(a, flows, k, (m - 1) as nat);
    }
}

/// What `future` returns, as a relation between its arguments and its result.
pub open spec fn assembler_future_ok(
    a: Assembler,
    flows: Seq<Option<MaterialFlow>>,
    ready_times: Seq<i64>,
    start_time: int,
    r: Result<AssemblerFuture, MachineOperatingState>,
) -> bool {
    let n = assembler_inputs_seen(a, flows);
    let rate = assembly_rate_allowed(a, flows, n);
    let start = assembly_start_allowed(start_time, ready_times, n);
    &&& r != Err::<AssemblerFuture, MachineOperatingState>(MachineOperatingState::Operating)
    &&& first_input_problem(a, flows, n) matches Some(p) ==> r == Err::<
        AssemblerFuture,
        MachineOperatingState,
    >(p)
    &&& first_input_problem(a, flows, n) is None ==> {
        &&& rate == 0 <==> r == Err::<AssemblerFuture, MachineOperatingState>(
            MachineOperatingState::InputTooInfrequent,
        )
        &&& rate != 0 ==> (r matches Ok(future) && {
            &&& future.assembly_start_pattern@ == (start, rate)
            &&& future.outputs@.len() == a.outputs@.len()
            &&& forall|j: int|
                0 <= j < future.outputs@.len() ==> (#[trigger] future.outputs@[j])@ == (
                    start + a.assembly_duration + TIME_TO_MOVE_MATERIAL,
                    rate * a.outputs@[j].amount,
                )
        })
    }
    &&& r matches Ok(future) ==> forall|j: int|
        0 <= j < future.outputs@.len() ==> (#[trigger] future.outputs@[j])@.0 >= start_time
}

impl Assembler {
    /// What the assembler does with its inputs: each input it has must be present and carry its
    /// material (the first input with a problem decides the error); the assembly rate is the
    /// slowest the inputs allow, and must be positive; assembly starts once every input has
    /// delivered one assembly's worth (`ready_times`: when each input's items for the first
    /// assembly have arrived) and moved in; outputs begin one assembly and one move later.
    pub fn future(&self, inputs: MachineObservedInputs, ready_times: &[Number]) -> (r: Result<
        AssemblerFuture,
        MachineOperatingState,
    >)
        requires
            assembler_future_fits(
                *self,
                inputs.input_flows@,
                ready_times@,
                inputs.start_time as int,
            ),
            ready_times_of(*self, inputs.input_flows@, ready_times@, inputs.start_time as int),
        ensures
            assembler_future_ok(*self, inputs.input_flows@, ready_times@, inputs.start_time as int, r),
            r matches Ok(future) ==> {
                &&& future.assembly_start_pattern@.0 >= inputs.start_time
                &&& forall|i: int|
                    0 <= i < assembler_inputs_seen(*self, inputs.input_flows@)
                        ==> future.assembly_start_pattern@.0 >= #[trigger] ready_times@[i]
                        + TIME_TO_MOVE_MATERIAL
                &&& future.assembly_start_pattern@.0 == inputs.start_time || exists|i: int|
                    0 <= i < assembler_inputs_seen(*self, inputs.input_flows@)
                        && future.assembly_start_pattern@.0 == #[trigger] ready_times@[i]
                        + TIME_TO_MOVE_MATERIAL
            },
    {
        proof {
            law_assembly_waits_for_every_input(
                inputs.start_time as int,
                ready_times@,
                assembler_inputs_seen(*self, inputs.input_flows@),
            );
        }
        let flows = inputs.input_flows;
        let n = if self.inputs.len() <= flows.len() {
            self.inputs.len()
        } else {
            flows.len()
        };
        let mut assembly_rate = RATE_DIVISOR / self.assembly_duration;
        let mut assembly_start = inputs.start_time;
        let mut i: usize = 0;
        proof {
            lemma_assembly_rate_bounds(*self, flows@, 0);
        }
        while i < n
            invariant
                i <= n,
                n == assembler_inputs_seen(*self, inputs.input_flows@),
                n <= self.inputs@.len(),
                n <= flows@.len(),
                flows@ == inputs.input_flows@,
                assembler_future_fits(*self, flows@, ready_times@, inputs.start_time as int),
                first_input_problem(*self, flows@, i as nat) is None,
                forall|k: int|
                    0 <= k < i ==> (#[trigger] flows@[k]) is Some && flows@[k].unwrap().flow@.1
                        >= 0,
                assembly_rate == assembly_rate_allowed(*self, flows@, i as nat),
                assembly_start == assembly_start_allowed(
                    inputs.start_time as int,
                    ready_times@,
                    i as nat,
                ),
                assembly_start + self.assembly_duration + TIME_TO_MOVE_MATERIAL <= i64::MAX,
            decreases n - i,
        {
            let input = self.inputs[i];
            match &flows[i] {
                None => {
                    proof {
                        assert(input_problem(*self, flows@, i as int) == Some(
                            MachineOperatingState::InputMissing,
                        ));
                        lemma_first_problem_stays(*self, flows@, (i + 1) as nat, n as nat);
                    }
                    return Err(MachineOperatingState::InputMissing);
                },
                Some(material_flow) => {
                    if material_flow.material != input.material {
                        proof {
                            assert(flows@[i as int] == Some(*material_flow));
                            assert(input_problem(*self, flows@, i as int) == Some(
                                MachineOperatingState::InputIncompatible,
                            ));
                            lemma_first_problem_stays(*self, flows@, (i + 1) as nat, n as nat);
                        }
                        return Err(MachineOperatingState::InputIncompatible);
                    }
                    let flow_rate = material_flow.flow.rate();
                    proof {
                        assert(flows@[i as int] == Some(*material_flow));
                        crate::arith::lemma_floor_div_monotone(0, flow_rate as int, input.cost as int);
                        lemma_assembly_rate_bounds(*self, flows@, i as nat);
                    }
                    let limited = flow_rate / input.cost;
                    if limited < assembly_rate {
                        assembly_rate = limited;
                    }
                    let ready = ready_times[i] + TIME_TO_MOVE_MATERIAL;
                    if ready > assembly_start {
                        assembly_start = ready;
                    }
                },
            }
            i = i + 1;
        }
        if assembly_rate == 0 {
            return Err(MachineOperatingState::InputTooInfrequent);
        }
        proof {
            lemma_assembly_rate_bounds(*self, flows@, n as nat);
            lemma_start_not_before(inputs.start_time as int, ready_times@, n as nat);
            assert(assembly_start + self.assembly_duration + TIME_TO_MOVE_MATERIAL <= i64::MAX);
        }
        let mut outputs: Vec<FlowPattern> = Vec::new();
        let output_start = assembly_start + self.assembly_duration + TIME_TO_MOVE_MATERIAL;
        let mut j: usize = 0;
        while j < self.outputs.len()
            invariant
                j <= self.outputs.len(),
                outputs@.len() == j,
                0 < assembly_rate <= RATE_DIVISOR,
                assembler_future_fits(*self, flows@, ready_times@, inputs.start_time as int),
                forall|k: int|
                    0 <= k < j ==> (#[trigger] outputs@[k])@ == (
                        output_start as int,
                        assembly_rate * self.outputs@[k].amount,
                    ),
            decreases self.outputs.len() - j,
        {
            let amount = self.outputs[j].amount;
            proof {
                assert(self.outputs@[j as int].amount == amount);
                assert(0 < assembly_rate * amount <= RATE_DIVISOR * amount) by (nonlinear_arith)
                    requires
                        0 < assembly_rate <= RATE_DIVISOR,
                        amount > 0,
                ;
            }
            outputs.push(FlowPattern::new(output_start, assembly_rate * amount));
            j = j + 1;
        }
        Ok(
            AssemblerFuture {
                assembly_start_pattern: FlowPattern::new(assembly_start, assembly_rate),
                outputs,
            },
        )
    }

    /// The assembler's outputs: each output pattern of the future, carrying that output's
    /// material.
    pub fn output_flows(&self, future: &AssemblerFuture) -> (r: Vec<Option<MaterialFlow>>)
        ensures
            r@.len() == if future.outputs@.len() <= self.outputs@.len() {
                future.outputs@.len()
            } else {
                self.outputs@.len()
            },
            forall|k: int|
                0 <= k < r@.len() ==> (#[trigger] r@[k]) == Some(
                    MaterialFlow { material: self.outputs@[k].material, flow: future.outputs@[k] },
                ),
    {
        let n = if future.outputs.len() <= self.outputs.len() {
            future.outputs.len()
        } else {
            self.outputs.len()
        };
        let mut result: Vec<Option<MaterialFlow>> = Vec::new();
        let mut k: usize = 0;
        while k < n
            invariant
                k <= n,
                n <= future.outputs@.len(),
                n <= self.outputs@.len(),
                result@.len() == k,
                forall|j: int|
                    0 <= j < k ==> (#[trigger] result@[j]) == Some(
                        MaterialFlow {
                            material: self.outputs@[j].material,
                            flow: future.outputs@[j],
                        },
                    ),
            decreases n - k,
        {
            result.push(
                Some(MaterialFlow { material: self.outputs[k].material, flow: future.outputs[k] }),
            );
            k = k + 1;
        }
        result
    }
}

/// A distributor never sends anything out before its start time: the flows that
/// `output_flows` gives for a future that `future` returned pass `output_times_valid`.
pub proof fn law_distributor_outputs_start_in_time(
    future: DistributorFuture,
    start_time: int,
    outputs: Seq<Option<MaterialFlow>>,
)
    requires
        forall|k: int|
            0 <= k < future.outputs@.len() ==> (#[trigger] future.outputs@[k])@.0 >= start_time,
        outputs.len() == future.outputs@.len(),
        forall|k: int|
            0 <= k < outputs.len() ==> (#[trigger] outputs[k]) == Some(
                MaterialFlow { material: future.material, flow: future.outputs@[k] },
            ),
    ensures
        crate::machine_data::outputs_start_in_time(start_time, outputs),
{
    assert forall|k: int| 0 <= k < outputs.len() implies ((#[trigger] outputs[k]) matches Some(f)
        ==> f.flow@.0 >= start_time) by {
        assert(future.outputs@[k]@.0 >= start_time);
    }
}

/// An assembler never sends anything out before its start time: the flows that `output_flows`
/// gives for a future that `future` returned pass `output_times_valid`.
pub proof fn law_assembler_outputs_start_in_time(
    assembler: Assembler,
    future: AssemblerFuture,
    start_time: int,
    outputs: Seq<Option<MaterialFlow>>,
)
    requires
        forall|k: int|
            0 <= k < future.outputs@.len() ==> (#[trigger] future.outputs@[k])@.0 >= start_time,
        outputs.len() <= future.outputs@.len(),
        outputs.len() <= assembler.outputs@.len(),
        forall|k: int|
            0 <= k < outputs.len() ==> (#[trigger] outputs[k]) == Some(
                MaterialFlow { material: assembler.outputs@[k].material, flow: future.outputs@[k] },
            ),
    ensures
        crate::machine_data::outputs_start_in_time(start_time, outputs),
{
    assert forall|k: int| 0 <= k < outputs.len() implies ((#[trigger] outputs[k]) matches Some(f)
        ==> f.flow@.0 >= start_time) by {
        assert(future.outputs@[k]@.0 >= start_time);
    }
}

} // verus!
