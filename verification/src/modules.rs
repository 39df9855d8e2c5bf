use vstd::prelude::*;
use crate::flow_pattern::{FlowPattern, FlowRate, MaterialFlow, MaterialFlowRate, Number, RATE_DIVISOR};
use crate::machine_data::{
    machine_type_name, machine_type_valid, InputLocation, MachineObservedInputs, MachineOperatingState, MachineType,
    Material, PlatonicRegionContents, StandardMachineInfo, TIME_TO_MOVE_MATERIAL,
};
use crate::primitive_machines::{latest_where_present, no_input};
use crate::primitive_machines::{input_location_model, output_location_model};

verus! {

/// A module input or output: where it sits on the outside and where it leads inside.
#[derive(Copy, Clone, PartialEq, Eq, Hash, Debug, Structural)]
pub struct ModuleInput {
    pub outer_location: InputLocation,
    pub inner_location: InputLocation,
}

/// The shape of a module: its info, the radius of its inside, and its inputs and outputs.
#[derive(Clone, PartialEq, Eq, Hash, Debug, Default)]
pub struct ModuleType {
    pub info: StandardMachineInfo,
    pub inner_radius: Number,
    pub inputs: Vec<ModuleInput>,
    pub outputs: Vec<ModuleInput>,
}

/// A module: its shape, its cost and the machines inside it.
#[derive(Clone, PartialEq, Eq, Hash, Debug, Default)]
pub struct PlatonicModule {
    pub module_type: ModuleType,
    pub cost: Vec<(Number, Material)>,
    pub region: PlatonicRegionContents,
}

impl ModuleType {
    /// Inputs as mathematical values: (outer location, inner location).
    pub open spec fn input_models(&self) -> Seq<(((int, int), int), ((int, int), int))> {
        self.inputs@.map_values(|m: ModuleInput| (m.outer_location@, m.inner_location@))
    }

    /// Outputs as mathematical values: (outer location, inner location).
    pub open spec fn output_models(&self) -> Seq<(((int, int), int), ((int, int), int))> {
        self.outputs@.map_values(|m: ModuleInput| (m.outer_location@, m.inner_location@))
    }
}

/// The `y` of basic module input or output number `index`.
pub open spec fn basic_module_y(index: int) -> int {
    -3 + index * 2
}

fn basic_module_y_exec(index: Number) -> (r: Number)
    requires
        0 <= index < 4,
    ensures
        r == basic_module_y(index as int),
{
    -3 + index * 2
}

fn basic_module_input(index: Number) -> (r: ModuleInput)
    requires
        0 <= index < 4,
    ensures
        r.outer_location@ == input_location_model(-20, basic_module_y(index as int)),
        r.inner_location@ == input_location_model(-18, basic_module_y(index as int)),
{
    let y = basic_module_y_exec(index);
    ModuleInput {
        outer_location: InputLocation::input(-20, y),
        inner_location: InputLocation::input(-18, y),
    }
}

fn basic_module_output(index: Number) -> (r: ModuleInput)
    requires
        0 <= index < 4,
    ensures
        r.outer_location@ == output_location_model(20, basic_module_y(index as int)),
        r.inner_location@ == output_location_model(18, basic_module_y(index as int)),
{
    let y = basic_module_y_exec(index);
    ModuleInput {
        outer_location: InputLocation::output(20, y),
        inner_location: InputLocation::output(18, y),
    }
}

/// The basic module: radius 20 outside, 18 inside, four inputs on the left and four outputs on
/// the right at `y = -3, -1, 1, 3`, costing 20 iron, empty inside.
pub fn basic_module() -> (r: MachineType)
    ensures
        machine_type_valid(r),
        r matches MachineType::Module(m) && {
            &&& m.module_type.info.name@ == "Basic module"@
            &&& m.module_type.info.icon@ == "rounded-rectangle-solid"@
            &&& m.module_type.info.radius == 20
            &&& m.module_type.info.cost@ == seq![(20i64, Material::Iron)]
            &&& m.module_type.inner_radius == 18
            &&& m.module_type.input_models() == Seq::new(
                4,
                |i: int|
                    (
                        input_location_model(-20, basic_module_y(i)),
                        input_location_model(-18, basic_module_y(i)),
                    ),
            )
            &&& m.module_type.output_models() == Seq::new(
                4,
                |i: int|
                    (
                        output_location_model(20, basic_module_y(i)),
                        output_location_model(18, basic_module_y(i)),
                    ),
            )
            &&& m.cost@ == seq![(20i64, Material::Iron)]
            &&& m.region.machines@.len() == 0
        },
{
    let cost = vec![(20, Material::Iron)];
    let mut inputs: Vec<ModuleInput> = Vec::new();
    let mut outputs: Vec<ModuleInput> = Vec::new();
    let mut index: Number = 0;
    while index < 4
        invariant
            0 <= index <= 4,
            inputs.len() == index,
            outputs.len() == index,
            forall|i: int|
                0 <= i < index ==> (#[trigger] inputs[i]).outer_location@ == input_location_model(
                    -20,
                    basic_module_y(i),
                ) && inputs[i].inner_location@ == input_location_model(-18, basic_module_y(i)),
            forall|i: int|
                0 <= i < index ==> (#[trigger] outputs[i]).outer_location@ == output_location_model(
                    20,
                    basic_module_y(i),
                ) && outputs[i].inner_location@ == output_location_model(18, basic_module_y(i)),
        decreases 4 - index,
    {
        inputs.push(basic_module_input(index));
        outputs.push(basic_module_output(index));
        index = index + 1;
    }
    let info_cost = vec![(20, Material::Iron)];
    let module_type = ModuleType {
        info: StandardMachineInfo::new("Basic module", "rounded-rectangle-solid", 20, info_cost),
        inner_radius: 18,
        inputs,
        outputs,
    };
    assert(module_type.input_models() =~= Seq::new(
        4,
        |i: int|
            (
                input_location_model(-20, basic_module_y(i)),
                input_location_model(-18, basic_module_y(i)),
            ),
    ));
    assert(module_type.output_models() =~= Seq::new(
        4,
        |i: int|
            (
                output_location_model(20, basic_module_y(i)),
                output_location_model(18, basic_module_y(i)),
            ),
    ));
    MachineType::Module(
        PlatonicModule {
            module_type,
            cost,
            region: PlatonicRegionContents { machines: Vec::new() },
        },
    )
}

/// The rate of a full conveyor, one item every `TIME_TO_MOVE_MATERIAL`: that is,
/// `RATE_DIVISOR / TIME_TO_MOVE_MATERIAL`.
pub const STANDARD_RATE: Number = 2 * 2 * 2 * 2 * 2 * 2 * 3 * 3 * 3 * 5 * 5;

/// `STANDARD_RATE` items per `RATE_DIVISOR` time units is one item per `TIME_TO_MOVE_MATERIAL`.
pub proof fn lemma_standard_rate()
    ensures
        STANDARD_RATE * TIME_TO_MOVE_MATERIAL == RATE_DIVISOR,
{
}

/// The machine types a new game offers, in the order the player sees them: conveyor, splitter,
/// iron smelter, iron mine and basic module.
pub fn machine_presets() -> (r: Vec<MachineType>)
    ensures
        r@.len() == 5,
        forall|i: int| 0 <= i < r@.len() ==> machine_type_valid(#[trigger] r@[i]),
        r@.map_values(|t: MachineType| machine_type_name(t)) == seq![
            "Conveyor"@,
            "Splitter"@,
            "Iron smelter"@,
            "Iron mine"@,
            "Basic module"@,
        ],
{
    let mut r: Vec<MachineType> = Vec::new();
    r.push(crate::primitive_machines::conveyor());
    r.push(crate::primitive_machines::splitter());
    r.push(crate::primitive_machines::iron_smelter());
    r.push(crate::primitive_machines::iron_mine());
    r.push(basic_module());
    proof {
        assert(r@.map_values(|t: MachineType| machine_type_name(t)) =~= seq![
            "Conveyor"@,
            "Splitter"@,
            "Iron smelter"@,
            "Iron mine"@,
            "Basic module"@,
        ]);
    }
    r
}

/// The rates a module admits at its inputs, in the order they are searched.
pub open spec fn permitted_rates_spec() -> Seq<i64> {
    seq![
        (STANDARD_RATE / 96) as i64,
        (STANDARD_RATE / 64) as i64,
        (STANDARD_RATE / 48) as i64,
        (STANDARD_RATE / 36) as i64,
        (STANDARD_RATE / 32) as i64,
        (STANDARD_RATE / 24) as i64,
        (STANDARD_RATE / 16) as i64,
        (STANDARD_RATE / 12) as i64,
        (STANDARD_RATE / 8) as i64,
        (STANDARD_RATE / 6) as i64,
        (STANDARD_RATE / 5) as i64,
        (STANDARD_RATE / 4) as i64,
        (STANDARD_RATE / 3) as i64,
        (STANDARD_RATE * 2 / 5) as i64,
        (STANDARD_RATE / 2) as i64,
        (STANDARD_RATE * 2 / 3) as i64,
        (STANDARD_RATE * 3 / 5) as i64,
        (STANDARD_RATE * 3 / 4) as i64,
        (STANDARD_RATE * 4 / 5) as i64,
        STANDARD_RATE,
    ]
}

fn permitted_rates() -> (r: Vec<Number>)
    ensures
        r@ == permitted_rates_spec(),
{
    let r = vec![
        STANDARD_RATE / 96,
        STANDARD_RATE / 64,
        STANDARD_RATE / 48,
        STANDARD_RATE / 36,
        STANDARD_RATE / 32,
        STANDARD_RATE / 24,
        STANDARD_RATE / 16,
        STANDARD_RATE / 12,
        STANDARD_RATE / 8,
        STANDARD_RATE / 6,
        STANDARD_RATE / 5,
        STANDARD_RATE / 4,
        STANDARD_RATE / 3,
        STANDARD_RATE * 2 / 5,
        STANDARD_RATE / 2,
        STANDARD_RATE * 2 / 3,
        STANDARD_RATE * 3 / 5,
        STANDARD_RATE * 3 / 4,
        STANDARD_RATE * 4 / 5,
        STANDARD_RATE,
    ];
    assert(r@ =~= permitted_rates_spec());
    r
}

/// What `<[i64]>::binary_search` returns for `value` in `slice`.
pub uninterp spec fn slice_binary_search(slice: Seq<i64>, value: i64) -> Result<usize, usize>;

/// Calls `<[i64]>::binary_search`. Its result is claimed to be `slice_binary_search` of the
/// slice and the value, a function of those alone; nothing more is claimed, as the rates
/// searched here are not sorted throughout and std leaves the result unspecified then.
#[verifier::external_body]
fn binary_search_rates(slice: &[Number], value: Number) -> (r: Result<usize, usize>)
    ensures
        r == slice_binary_search(slice@, value),
{
    slice.binary_search(&value)
}

/// A search result points into the permitted rates: a found index below their number, an
/// insertion point at most their number.
pub open spec fn search_in_bounds(search: Result<usize, usize>) -> bool {
    match search {
        Ok(index) => index < permitted_rates_spec().len(),
        Err(index) => index <= permitted_rates_spec().len(),
    }
}

/// The permitted rate a search result picks: the rate found, or the one before the insertion
/// point; none before the first.
pub open spec fn rounded_down_rate(search: Result<usize, usize>) -> Option<int> {
    match search {
        Ok(index) => Some(permitted_rates_spec()[index as int] as int),
        Err(index) => if index == 0 {
            None
        } else {
            Some(permitted_rates_spec()[index - 1] as int)
        },
    }
}

/// Every permitted rate is positive.
proof fn lemma_permitted_rates_positive(i: int)
    requires
        0 <= i < permitted_rates_spec().len(),
    ensures
        permitted_rates_spec()[i] > 0,
{
}

/// The canonical form of a module input, given where its rate falls among the permitted
/// rates: the same material at the rate that the search result picks, or nothing where the
/// rate falls below the first permitted rate.
pub fn canonical_rate_from_search(input: MaterialFlow, search: Result<usize, usize>) -> (r: Option<
    MaterialFlowRate,
>)
    requires
        search_in_bounds(search),
    ensures
        r is Some <==> rounded_down_rate(search) is Some,
        r matches Some(f) ==> f.material == input.material && f.flow@ == rounded_down_rate(
            search,
        ).unwrap(),
{
    let rates = permitted_rates();
    let rounded_down = match search {
        Ok(index) => rates[index],
        Err(index) => {
            if index == 0 {
                return None;
            }
            rates[index - 1]
        },
    };
    proof {
        match search {
            Ok(index) => lemma_permitted_rates_positive(index as int),
            Err(index) => lemma_permitted_rates_positive(index - 1),
        }
    }
    Some(MaterialFlowRate { material: input.material, flow: FlowRate::new(rounded_down) })
}

/// `r` is the canonical form of `input`: found by a binary search of the permitted rates for
/// the input's rate, the same material at the rate the search picks (nothing below the first
/// permitted rate), or nothing where the search points outside the permitted rates.
pub open spec fn is_canonical_input(input: MaterialFlow, r: Option<MaterialFlowRate>) -> bool {
    let search = slice_binary_search(permitted_rates_spec(), input.flow@.1 as i64);
    &&& search_in_bounds(search) ==> {
        &&& (r is Some <==> rounded_down_rate(search) is Some)
        &&& r matches Some(f) ==> f.material == input.material && f.flow@ == rounded_down_rate(
            search,
        ).unwrap()
    }
    &&& !search_in_bounds(search) ==> r is None
}

/// The canonical form of a module input: its rate rounded down to a permitted rate, found by a
/// binary search of the permitted rates; nothing where the rate is below every permitted rate
/// or the search points outside them.
pub fn canonical_module_input(input: MaterialFlow) -> (r: Option<MaterialFlowRate>)
    ensures
        is_canonical_input(input, r),
{
    let rates = permitted_rates();
    let search = binary_search_rates(rates.as_slice(), input.flow.rate());
    let in_bounds = match search {
        Ok(index) => index < rates.len(),
        Err(index) => index <= rates.len(),
    };
    if in_bounds {
        canonical_rate_from_search(input, search)
    } else {
        None
    }
}

/// What a module machine will do: the canonical form of each of its inputs, and when the first
/// materials arrive inside it.
#[derive(Clone, PartialEq, Eq, Hash, Debug)]
pub struct ModuleMachineFuture {
    pub canonical_inputs: Vec<Option<MaterialFlowRate>>,
    pub start_time: Number,
}

/// The first flow dumped at `location` from position `i` of the list on, if any.
pub open spec fn first_dumped_from(
    dumped: Seq<(InputLocation, MaterialFlow)>,
    location: InputLocation,
    i: int,
) -> Option<MaterialFlow>
    decreases dumped.len() - i,
{
    if i < 0 || i >= dumped.len() {
        None
    } else if dumped[i].0 == location {
        Some(dumped[i].1)
    } else {
        first_dumped_from(dumped, location, i + 1)
    }
}

/// The first flow dumped at `location`, if any.
pub open spec fn first_dumped(dumped: Seq<(InputLocation, MaterialFlow)>, location: InputLocation) -> Option<
    MaterialFlow,
> {
    first_dumped_from(dumped, location, 0)
}

/// `out` is `inner` started `delay` later.
pub open spec fn delayed_output(inner: Option<MaterialFlow>, out: Option<MaterialFlow>, delay: int) -> bool {
    match inner {
        None => out is None,
        Some(f) => out matches Some(g) && g.material == f.material && g.flow@ == (
            f.flow@.0 + delay,
            f.flow@.1,
        ),
    }
}

/// What `PlatonicModule::future` returns, as a relation between its arguments and its result.
pub open spec fn module_future_ok(
    flows: Seq<Option<MaterialFlow>>,
    first_disbursements: Seq<i64>,
    start_time: int,
    r: Result<ModuleMachineFuture, MachineOperatingState>,
) -> bool {
    r matches Ok(future) && {
        &&& no_input(flows) ==> future.start_time == start_time + TIME_TO_MOVE_MATERIAL
        &&& !no_input(flows) ==> latest_where_present(
            flows,
            first_disbursements,
            future.start_time - TIME_TO_MOVE_MATERIAL,
        )
        &&& future.canonical_inputs@.len() == flows.len()
        &&& forall|i: int|
            0 <= i < future.canonical_inputs@.len() ==> match flows[i] {
                None => (#[trigger] future.canonical_inputs@[i]) is None,
                Some(f) => is_canonical_input(f, future.canonical_inputs@[i]),
            }
    }
}

impl PlatonicModule {
    /// What the module does with its inputs: it always runs; each input is put in canonical
    /// form, and the inside starts one move after the last of the inputs' first deliveries
    /// (`first_disbursements`: the first delivery of each present input at or after the start
    /// time), or one move after the start time when no input is present.
    pub fn future(&self, inputs: MachineObservedInputs, first_disbursements: &[Number]) -> (r:
        Result<ModuleMachineFuture, MachineOperatingState>)
        requires
            first_disbursements@.len() == inputs.input_flows@.len(),
            crate::primitive_machines::first_disbursements_of(
                inputs.input_flows@,
                first_disbursements@,
                inputs.start_time as int,
            ),
            inputs.start_time + TIME_TO_MOVE_MATERIAL <= i64::MAX,
            forall|i: int|
                0 <= i < first_disbursements@.len() ==> (#[trigger] first_disbursements@[i])
                    + TIME_TO_MOVE_MATERIAL <= i64::MAX,
        ensures
            module_future_ok(inputs.input_flows@, first_disbursements@, inputs.start_time as int, r),
    {
        let flows = inputs.input_flows;
        let mut latest: Option<Number> = None;
        let mut canonical_inputs: Vec<Option<MaterialFlowRate>> = Vec::new();
        let mut i: usize = 0;
        while i < flows.len()
            invariant
                i <= flows.len(),
                flows@ == inputs.input_flows@,
                first_disbursements@.len() == flows@.len(),
                canonical_inputs@.len() == i,
                forall|k: int|
                    0 <= k < i ==> match flows@[k] {
                        None => (#[trigger] canonical_inputs@[k]) is None,
                        Some(f) => is_canonical_input(f, canonical_inputs@[k]),
                    },
                latest is None <==> forall|j: int| 0 <= j < i ==> (#[trigger] flows@[j]) is None,
                latest matches Some(t) ==> {
                    &&& exists|j: int|
                        0 <= j < i && (#[trigger] flows@[j]) is Some && first_disbursements@[j] == t
                    &&& forall|j: int|
                        0 <= j < i && (#[trigger] flows@[j]) is Some ==> first_disbursements@[j] <= t
                },
            decreases flows.len() - i,
        {
            match flows[i] {
                Some(flow) => {
                    canonical_inputs.push(canonical_module_input(flow));
                    let t = first_disbursements[i];
                    match latest {
                        None => {
                            latest = Some(t);
                        },
                        Some(best) => {
                            if t >= best {
                                latest = Some(t);
                            }
                        },
                    }
                },
                None => {
                    canonical_inputs.push(None);
                },
            }
            i = i + 1;
        }
        let start = match latest {
            Some(t) => {
                proof {
                    let j = choose|j: int|
                        0 <= j < flows@.len() && (#[trigger] flows@[j]) is Some
                            && first_disbursements@[j] == t;
                    assert(first_disbursements@[j] + TIME_TO_MOVE_MATERIAL <= i64::MAX);
                }
                t
            },
            None => inputs.start_time,
        };
        Ok(ModuleMachineFuture { canonical_inputs, start_time: start + TIME_TO_MOVE_MATERIAL })
    }

    fn internal_outputs(&self, dumped: &[(InputLocation, MaterialFlow)]) -> (r: Vec<
        Option<MaterialFlow>,
    >)
        ensures
            r@.len() == self.module_type.outputs@.len(),
            forall|k: int|
                0 <= k < r@.len() ==> #[trigger] r@[k] == first_dumped(
                    dumped@,
                    self.module_type.outputs@[k].inner_location,
                ),
    {
        let mut result: Vec<Option<MaterialFlow>> = Vec::new();
        let mut k: usize = 0;
        while k < self.module_type.outputs.len()
            invariant
                k <= self.module_type.outputs@.len(),
                result@.len() == k,
                forall|j: int|
                    0 <= j < k ==> #[trigger] result@[j] == first_dumped(
                        dumped@,
                        self.module_type.outputs@[j].inner_location,
                    ),
            decreases self.module_type.outputs@.len() - k,
        {
            let location = self.module_type.outputs[k].inner_location;
            let mut found: Option<MaterialFlow> = None;
            let mut i: usize = 0;
            while i < dumped.len()
                invariant_except_break
                    found is None,
                invariant
                    i <= dumped@.len(),
                    first_dumped(dumped@, location) == first_dumped_from(dumped@, location, i as int),
                ensures
                    found == first_dumped(dumped@, location),
                decreases dumped@.len() - i,
            {
                if dumped[i].0 == location {
                    found = Some(dumped[i].1);
                    break;
                }
                i = i + 1;
            }
            result.push(found);
            k = k + 1;
        }
        result
    }

    /// The module's outputs: for each output, the first flow that the inside dumped at the
    /// output's inner location, delayed by the module's start time and one move; nothing where
    /// the inside dumped nothing there.
    pub fn module_output_flows(
        &self,
        module_machine_future: &ModuleMachineFuture,
        dumped: &[(InputLocation, MaterialFlow)],
    ) -> (r: Vec<Option<MaterialFlow>>)
        requires
            forall|i: int|
                0 <= i < dumped@.len() ==> (#[trigger] dumped@[i]).1.flow@.1 > 0
                    && crate::arith::in_i64(
                    dumped@[i].1.flow@.0 + module_machine_future.start_time
                        + TIME_TO_MOVE_MATERIAL,
                ),
            crate::arith::in_i64(module_machine_future.start_time + TIME_TO_MOVE_MATERIAL),
        ensures
            r@.len() == self.module_type.outputs@.len(),
            forall|k: int|
                0 <= k < r@.len() ==> delayed_output(
                    first_dumped(dumped@, self.module_type.outputs@[k].inner_location),
                    #[trigger] r@[k],
                    module_machine_future.start_time + TIME_TO_MOVE_MATERIAL,
                ),
    {
        let internal = self.internal_outputs(dumped);
        let delay = module_machine_future.start_time + TIME_TO_MOVE_MATERIAL;
        let mut result: Vec<Option<MaterialFlow>> = Vec::new();
        let mut k: usize = 0;
        while k < internal.len()
            invariant
                k <= internal@.len(),
                internal@.len() == self.module_type.outputs@.len(),
                delay == module_machine_future.start_time + TIME_TO_MOVE_MATERIAL,
                forall|i: int|
                    0 <= i < dumped@.len() ==> (#[trigger] dumped@[i]).1.flow@.1 > 0
                        && crate::arith::in_i64(dumped@[i].1.flow@.0 + delay),
                forall|j: int|
                    0 <= j < internal@.len() ==> #[trigger] internal@[j] == first_dumped(
                        dumped@,
                        self.module_type.outputs@[j].inner_location,
                    ),
                result@.len() == k,
                forall|j: int|
                    0 <= j < k ==> delayed_output(internal@[j], #[trigger] result@[j], delay as int),
            decreases internal@.len() - k,
        {
            match internal[k] {
                None => {
                    result.push(None);
                },
                Some(output) => {
                    proof {
                        let loc = self.module_type.outputs@[k as int].inner_location;
                        lemma_first_dumped_is_dumped(dumped@, loc, 0);
                    }
                    result.push(
                        Some(
                            MaterialFlow {
                                material: output.material,
                                flow: output.flow.delayed_by(delay),
                            },
                        ),
                    );
                },
            }
            k = k + 1;
        }
        result
    }
}

/// A flow found at a location is one of the dumped flows.
proof fn lemma_first_dumped_is_dumped(
    dumped: Seq<(InputLocation, MaterialFlow)>,
    location: InputLocation,
    i: int,
)
    requires
        0 <= i,
    ensures
        first_dumped_from(dumped, location, i) matches Some(f) ==> exists|j: int|
            0 <= j < dumped.len() && (#[trigger] dumped[j]).1 == f,
    decreases dumped.len() - i,
{
    if i < dumped.len() {
        if dumped[i].0 == location {
            assert(dumped[i].1 == dumped[i].1);
        } else {
            lemma_first_dumped_is_dumped(dumped, location, i + 1);
        }
    }
}

/// A module never sends anything out before its inputs' start time: where each present
/// input's first delivery comes at or after the start time, the module starts as `future`
/// states, and the inside dumps only flows that start at or after its own time zero, every
/// output that `module_output_flows` gives starts at least two moves after the start time.
pub proof fn law_module_outputs_start_after_start_time(
    flows: Seq<Option<MaterialFlow>>,
    start_time: int,
    first_disbursements: Seq<i64>,
    module_start: int,
    dumped: Seq<(InputLocation, MaterialFlow)>,
    location: InputLocation,
    out: Option<MaterialFlow>,
)
    requires
        first_disbursements.len() == flows.len(),
        forall|i: int|
            0 <= i < flows.len() && (#[trigger] flows[i]) is Some ==> first_disbursements[i]
                >= start_time,
        no_input(flows) ==> module_start == start_time + TIME_TO_MOVE_MATERIAL,
        !no_input(flows) ==> latest_where_present(
            flows,
            first_disbursements,
            module_start - TIME_TO_MOVE_MATERIAL,
        ),
        forall|i: int| 0 <= i < dumped.len() ==> (#[trigger] dumped[i]).1.flow@.0 >= 0,
        delayed_output(first_dumped(dumped, location), out, module_start + TIME_TO_MOVE_MATERIAL),
    ensures
        out matches Some(g) ==> g.flow@.0 >= start_time + 2 * TIME_TO_MOVE_MATERIAL,
{
    assert(module_start >= start_time + TIME_TO_MOVE_MATERIAL);
    lemma_first_dumped_is_dumped(dumped, location, 0);
    if let Some(f) = first_dumped(dumped, location) {
        let j = choose|j: int| 0 <= j < dumped.len() && (#[trigger] dumped[j]).1 == f;
        assert(f.flow@.0 >= 0);
    }
}

} // verus!
