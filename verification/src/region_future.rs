use vstd::prelude::*;
use crate::flow_pattern::{pattern_of, FlowPattern, MaterialFlow, MaterialFlowRate, Number};
use crate::graph_algorithms::{
    edges_of_region, is_noncyclic_topological_ordering, region_fits, EdgesModel, OutputEdges,
};
use crate::machine_data::{
    placed_inputs, placed_outputs, InputLocation, MachineObservedInputs, MachineOperatingState,
    MachineType, MachineTypeId, MachineTypes, PlatonicRegionContents, StatefulMachine,
    MAX_MACHINE_INPUTS, TIME_TO_MOVE_MATERIAL,
};
use crate::modules::{first_dumped, module_future_ok, ModuleInput, ModuleMachineFuture, PlatonicModule};
use crate::primitive_machines::{
    assembler_future_fits, assembler_future_ok, distributor_future_fits, distributor_future_ok,
    first_disbursements_of, first_times, ready_times_of, ready_times_spec, total_present_rate, total_rate_of, Assembler,
    AssemblerFuture, Distributor, DistributorFuture,
};

verus! {

/// What a machine will do, by kind of machine.
#[derive(Clone, PartialEq, Eq, Debug)]
pub enum MachineFuture {
    Distributor(DistributorFuture),
    Assembler(AssemblerFuture),
    Module(ModuleMachineFuture),
}

/// A machine of a region: the flows at its inputs, and what it will do with them.
#[derive(PartialEq, Eq, Debug)]
pub struct MachineAndInputsFuture {
    pub inputs: Vec<Option<MaterialFlow>>,
    pub future: Result<MachineFuture, MachineOperatingState>,
}

/// The future of a region: each machine's inputs and future, and the flows that leave the
/// region (outputs that lead to no input), with their locations.
#[derive(PartialEq, Eq, Debug)]
pub struct RegionFuture {
    pub machines: Vec<MachineAndInputsFuture>,
    pub dumped: Vec<(InputLocation, MaterialFlow)>,
}

/// Why the future of a region could not be computed: the state of the visit when it reached
/// the machine that failed, that machine's position in the ordering, the machine's future
/// where it was computed (a module's), and the failure of the module's inside where that is
/// what failed.
#[derive(PartialEq, Eq, Debug)]
pub struct RegionFailure {
    pub partial: RegionFuture,
    pub visited: usize,
    pub future: Result<MachineFuture, MachineOperatingState>,
    pub inside: Option<Box<RegionFailure>>,
}

/// The futures of modules' insides computed so far, by module type and canonical inputs.
#[derive(PartialEq, Eq, Debug)]
pub struct ModuleFutures {
    pub entries: Vec<(MachineTypeId, Vec<Option<MaterialFlowRate>>, RegionFuture)>,
}

/// The machine type an id names.
pub open spec fn kind_of(types: MachineTypes, id: MachineTypeId) -> MachineType {
    match id {
        MachineTypeId::Preset(i) => types.presets@[i as int],
        MachineTypeId::Module(i) => MachineType::Module(types.modules@[i as int]),
    }
}

/// A machine future seen as a distributor's, if it is one or an error.
pub open spec fn as_distributor(r: Result<MachineFuture, MachineOperatingState>) -> Option<
    Result<DistributorFuture, MachineOperatingState>,
> {
    match r {
        Ok(MachineFuture::Distributor(f)) => Some(Ok(f)),
        Err(e) => Some(Err(e)),
        _ => None,
    }
}

/// A machine future seen as an assembler's, if it is one or an error.
pub open spec fn as_assembler(r: Result<MachineFuture, MachineOperatingState>) -> Option<
    Result<AssemblerFuture, MachineOperatingState>,
> {
    match r {
        Ok(MachineFuture::Assembler(f)) => Some(Ok(f)),
        Err(e) => Some(Err(e)),
        _ => None,
    }
}

/// A machine future seen as a module's, if it is one or an error.
pub open spec fn as_module(r: Result<MachineFuture, MachineOperatingState>) -> Option<
    Result<ModuleMachineFuture, MachineOperatingState>,
> {
    match r {
        Ok(MachineFuture::Module(f)) => Some(Ok(f)),
        Err(e) => Some(Err(e)),
        _ => None,
    }
}

/// `r` is what a machine of type `t` does with the flows `flows` from `start_time` on: its
/// type's `future`, given the summed input rate and each input's first delivery at or after
/// the start time (for an assembler, each input's arrival of the items for one assembly).
pub open spec fn machine_future_ok(
    t: MachineType,
    flows: Seq<Option<MaterialFlow>>,
    start_time: int,
    r: Result<MachineFuture, MachineOperatingState>,
) -> bool {
    match t {
        MachineType::Distributor(d) => as_distributor(r) matches Some(rd) && distributor_future_ok(
            d,
            flows,
            total_present_rate(flows),
            first_times(flows, start_time),
            start_time,
            rd,
        ),
        MachineType::Assembler(a) => as_assembler(r) matches Some(ra) && assembler_future_ok(
            a,
            flows,
            ready_times_spec(a, flows, start_time),
            start_time,
            ra,
        ),
        MachineType::Module(_) => as_module(r) matches Some(rm) && module_future_ok(
            flows,
            first_times(flows, start_time),
            start_time,
            rm,
        ),
    }
}

/// The inside future recorded for a module type and canonical inputs: the first entry from
/// position `i` on with that key.
pub open spec fn memo_lookup_from(
    entries: Seq<(MachineTypeId, Vec<Option<MaterialFlowRate>>, RegionFuture)>,
    id: MachineTypeId,
    canonical: Seq<Option<MaterialFlowRate>>,
    i: int,
) -> Option<RegionFuture>
    decreases entries.len() - i,
{
    if i < 0 || i >= entries.len() {
        None
    } else if entries[i].0 == id && entries[i].1@ == canonical {
        Some(entries[i].2)
    } else {
        memo_lookup_from(entries, id, canonical, i + 1)
    }
}

/// The inside future recorded for a module type and canonical inputs.
pub open spec fn memo_lookup(
    entries: Seq<(MachineTypeId, Vec<Option<MaterialFlowRate>>, RegionFuture)>,
    id: MachineTypeId,
    canonical: Seq<Option<MaterialFlowRate>>,
) -> Option<RegionFuture> {
    memo_lookup_from(entries, id, canonical, 0)
}

/// `later` keeps every entry of `earlier`, in place, and may add more after them.
pub open spec fn memo_extends(
    earlier: Seq<(MachineTypeId, Vec<Option<MaterialFlowRate>>, RegionFuture)>,
    later: Seq<(MachineTypeId, Vec<Option<MaterialFlowRate>>, RegionFuture)>,
) -> bool {
    earlier.len() <= later.len() && later.take(earlier.len() as int) == earlier
}

/// A module's outputs: for each output, the first flow its inside dumped at the output's inner
/// location, started `delay` later; nothing where the inside dumped nothing there.
pub open spec fn module_outputs(
    m: PlatonicModule,
    dumped: Seq<(InputLocation, MaterialFlow)>,
    delay: int,
) -> Seq<Option<MaterialFlow>> {
    Seq::new(
        m.module_type.outputs@.len(),
        |k: int|
            match first_dumped(dumped, m.module_type.outputs@[k].inner_location) {
                None => None,
                Some(f) => Some(
                    MaterialFlow {
                        material: f.material,
                        flow: pattern_of(f.flow@.0 + delay, f.flow@.1),
                    },
                ),
            },
    )
}

/// The flows a machine of type `t` (named by `id`) sends out with future `r`; for a module,
/// from the inside future recorded in `memo`.
pub open spec fn machine_outputs(
    t: MachineType,
    id: MachineTypeId,
    r: Result<MachineFuture, MachineOperatingState>,
    memo: Seq<(MachineTypeId, Vec<Option<MaterialFlowRate>>, RegionFuture)>,
) -> Seq<Option<MaterialFlow>> {
    match r {
        Ok(MachineFuture::Distributor(f)) => Seq::new(
            f.outputs@.len(),
            |k: int| Some(MaterialFlow { material: f.material, flow: f.outputs@[k] }),
        ),
        Ok(MachineFuture::Assembler(f)) => match t {
            MachineType::Assembler(a) => Seq::new(
                if f.outputs@.len() <= a.outputs@.len() {
                    f.outputs@.len()
                } else {
                    a.outputs@.len()
                },
                |k: int| Some(MaterialFlow { material: a.outputs@[k].material, flow: f.outputs@[k] }),
            ),
            _ => Seq::empty(),
        },
        Ok(MachineFuture::Module(f)) => match (t, memo_lookup(memo, id, f.canonical_inputs@)) {
            (MachineType::Module(m), Some(inside)) => module_outputs(
                m,
                inside.dumped@,
                f.start_time + TIME_TO_MOVE_MATERIAL,
            ),
            _ => Seq::empty(),
        },
        Err(_) => Seq::empty(),
    }
}

/// The first fiat input at `location`, from position `i` on.
pub open spec fn fiat_at(
    fiat: Seq<(InputLocation, MaterialFlow)>,
    location: InputLocation,
    i: int,
) -> Option<MaterialFlow>
    decreases fiat.len() - i,
{
    if i < 0 || i >= fiat.len() {
        None
    } else if fiat[i].0 == location {
        Some(fiat[i].1)
    } else {
        fiat_at(fiat, location, i + 1)
    }
}

/// The inputs of a region's machines before any machine sends anything: the fiat input at each
/// input's location, if any.
pub open spec fn initial_inputs(
    types: MachineTypes,
    machines: Seq<StatefulMachine>,
    fiat: Seq<(InputLocation, MaterialFlow)>,
) -> Seq<Seq<Option<MaterialFlow>>> {
    Seq::new(
        machines.len(),
        |i: int|
            placed_inputs(types, machines[i]).map_values(
                |l: InputLocation| fiat_at(fiat, l, 0),
            ),
    )
}

/// The inputs and dumped flows of a region while flows are passed on.
pub type RouteState = (Seq<Seq<Option<MaterialFlow>>>, Seq<(InputLocation, MaterialFlow)>);

/// Passing on the first `o` outputs of a machine: an output that leads to an input becomes
/// that input's flow; one that leads nowhere is listed as dumped, with its location, where it
/// carries a flow.
pub open spec fn route_outputs(
    state: RouteState,
    outputs: Seq<Option<MaterialFlow>>,
    edges: Seq<Option<(usize, usize)>>,
    locations: Seq<InputLocation>,
    o: nat,
) -> RouteState
    decreases o,
{
    if o == 0 {
        state
    } else {
        let s = route_outputs(state, outputs, edges, locations, (o - 1) as nat);
        let j = o - 1;
        match edges[j] {
            None => match outputs[j] {
                Some(f) => (s.0, s.1.push((locations[j], f))),
                None => s,
            },
            Some(e) => (s.0.update(e.0 as int, s.0[e.0 as int].update(e.1 as int, outputs[j])), s.1),
        }
    }
}

/// How many outputs of a machine are passed on: as many as there are flows, edges and
/// locations.
pub open spec fn routed_count(
    outputs: Seq<Option<MaterialFlow>>,
    edges: Seq<Option<(usize, usize)>>,
    locations: Seq<InputLocation>,
) -> nat {
    let a = if outputs.len() <= edges.len() {
        outputs.len()
    } else {
        edges.len()
    };
    if a <= locations.len() {
        a
    } else {
        locations.len()
    }
}

/// The inputs and dumped flows after the first `k` machines of `ordering` have passed on their
/// outputs, each machine sending `outs(m)`.
pub open spec fn region_state(
    types: MachineTypes,
    machines: Seq<StatefulMachine>,
    edges: EdgesModel,
    ordering: Seq<usize>,
    fiat: Seq<(InputLocation, MaterialFlow)>,
    outs: spec_fn(int) -> Seq<Option<MaterialFlow>>,
    k: nat,
) -> RouteState
    decreases k,
{
    if k == 0 {
        (initial_inputs(types, machines, fiat), Seq::empty())
    } else {
        let s = region_state(types, machines, edges, ordering, fiat, outs, (k - 1) as nat);
        let m = ordering[k - 1] as int;
        let locations = placed_outputs(types, machines[m]);
        route_outputs(s, outs(m), edges[m], locations, routed_count(outs(m), edges[m], locations))
    }
}

/// What each machine of the region sends out, given each machine's future and the module memo.
pub open spec fn outputs_with(
    types: MachineTypes,
    machines: Seq<StatefulMachine>,
    futures: Seq<MachineAndInputsFuture>,
    memo: Seq<(MachineTypeId, Vec<Option<MaterialFlowRate>>, RegionFuture)>,
) -> spec_fn(int) -> Seq<Option<MaterialFlow>> {
    |m: int|
        machine_outputs(
            kind_of(types, machines[m].type_id),
            machines[m].type_id,
            futures[m].future,
            memo,
        )
}

/// `rf` is the future of the region: the machines of `ordering` are visited in turn, each
/// computes its future from the flows at its inputs at that point and its last disturbed time,
/// and passes its outputs on (to the input its edge leads to, or to the dumped list); every
/// other machine is in a cycle. Each machine's inputs are those at the end.
pub open spec fn region_future_valid(
    types: MachineTypes,
    machines: Seq<StatefulMachine>,
    edges: EdgesModel,
    ordering: Seq<usize>,
    fiat: Seq<(InputLocation, MaterialFlow)>,
    rf: RegionFuture,
    memo: Seq<(MachineTypeId, Vec<Option<MaterialFlowRate>>, RegionFuture)>,
) -> bool {
    let outs = outputs_with(types, machines, rf.machines@, memo);
    let last = region_state(types, machines, edges, ordering, fiat, outs, ordering.len());
    &&& rf.machines@.len() == machines.len()
    &&& forall|m: int| 0 <= m < machines.len() ==> (#[trigger] rf.machines@[m]).inputs@ == last.0[m]
    &&& rf.dumped@ == last.1
    &&& forall|m: int|
        0 <= m < machines.len() && !ordering.contains(m as usize) ==> (#[trigger] rf.machines@[m]).future
            == Err::<MachineFuture, MachineOperatingState>(MachineOperatingState::InCycle)
    &&& forall|k: int|
        0 <= k < ordering.len() ==> machine_future_ok(
            kind_of(types, machines[ordering[k] as int].type_id),
            region_state(types, machines, edges, ordering, fiat, outs, k as nat).0[ordering[k] as int],
            machines[ordering[k] as int].state.last_disturbed_time as int,
            #[trigger] rf.machines@[ordering[k] as int].future,
        )
    &&& forall|k: int|
        0 <= k < ordering.len() ==> ((#[trigger] rf.machines@[ordering[k] as int]).future matches Ok(
            MachineFuture::Module(f),
        ) ==> memo_lookup(memo, machines[ordering[k] as int].type_id, f.canonical_inputs@) is Some)
}

/// The fiat inputs of a module's inside: for each of the first `j` inputs with a canonical
/// flow, that flow from time 0 at the input's inner location.
pub open spec fn module_fiat_from(
    inputs: Seq<ModuleInput>,
    canonical: Seq<Option<MaterialFlowRate>>,
    j: nat,
) -> Seq<(InputLocation, MaterialFlow)>
    decreases j,
{
    if j == 0 {
        Seq::empty()
    } else {
        let before = module_fiat_from(inputs, canonical, (j - 1) as nat);
        match canonical[j - 1] {
            Some(f) => before.push(
                (
                    inputs[j - 1].inner_location,
                    MaterialFlow { material: f.material, flow: pattern_of(0, f.flow@) },
                ),
            ),
            None => before,
        }
    }
}

/// The fiat inputs of a module's inside for the canonical inputs `canonical`.
pub open spec fn module_fiat_spec(m: PlatonicModule, canonical: Seq<Option<MaterialFlowRate>>) -> Seq<
    (InputLocation, MaterialFlow),
> {
    let n = if m.module_type.inputs@.len() <= canonical.len() {
        m.module_type.inputs@.len()
    } else {
        canonical.len()
    };
    module_fiat_from(m.module_type.inputs@, canonical, n)
}

/// A recorded inside future is the future of the module's inside, for some edges and ordering
/// that `output_edges` and `topological_ordering_of_noncyclic_machines` give, with the fiat
/// inputs of its canonical inputs.
pub open spec fn memo_entry_ok(
    types: MachineTypes,
    entry: (MachineTypeId, Vec<Option<MaterialFlowRate>>, RegionFuture),
    memo: Seq<(MachineTypeId, Vec<Option<MaterialFlowRate>>, RegionFuture)>,
) -> bool {
    &&& kind_of(types, entry.0) is Module
    &&& exists|edges: EdgesModel, ordering: Seq<usize>|
        #![trigger edges_of_region(types, module_of(types, entry.0).region.machines@, edges), is_noncyclic_topological_ordering(edges, module_of(types, entry.0).region.machines@.len() as int, ordering)]
        edges_of_region(types, module_of(types, entry.0).region.machines@, edges)
            && is_noncyclic_topological_ordering(
            edges,
            module_of(types, entry.0).region.machines@.len() as int,
            ordering,
        ) && region_future_valid(
            types,
            module_of(types, entry.0).region.machines@,
            edges,
            ordering,
            module_fiat_spec(module_of(types, entry.0), entry.1@),
            entry.2,
            memo,
        )
}

/// The module a machine type id names, where it names one.
pub open spec fn module_of(types: MachineTypes, id: MachineTypeId) -> PlatonicModule {
    match kind_of(types, id) {
        MachineType::Module(m) => m,
        _ => arbitrary(),
    }
}

/// Every recorded inside future is right.
#[verifier::opaque]
pub open spec fn memo_valid(
    types: MachineTypes,
    memo: Seq<(MachineTypeId, Vec<Option<MaterialFlowRate>>, RegionFuture)>,
) -> bool {
    forall|i: int| 0 <= i < memo.len() ==> memo_entry_ok(types, #[trigger] memo[i], memo)
}

fn distributor_fits(
    d: &Distributor,
    flows: &[Option<MaterialFlow>],
    total: Number,
    times: &Vec<Number>,
    start_time: Number,
) -> (r: bool)
    ensures
        r == distributor_future_fits(
            d.outputs@.len() as int,
            flows@,
            total as int,
            times@,
            start_time as int,
        ),
{
    if d.outputs.len() == 0 || d.outputs.len() > MAX_MACHINE_INPUTS || total < 0
        || times.len() != flows.len() {
        return false;
    }
    let mut i: usize = 0;
    while i < flows.len()
        invariant
            i <= flows@.len(),
            times@.len() == flows@.len(),
            forall|j: int|
                0 <= j < i && (#[trigger] flows@[j]) is Some ==> start_time <= times@[j]
                    && times@[j] + TIME_TO_MOVE_MATERIAL + (MAX_MACHINE_INPUTS as int)
                    * crate::flow_pattern::RATE_DIVISOR <= i64::MAX,
        decreases flows@.len() - i,
    {
        if flows[i].is_some() {
            if times[i] < start_time || times[i] > i64::MAX - TIME_TO_MOVE_MATERIAL - 8
                * crate::flow_pattern::RATE_DIVISOR {
                assert(flows@[i as int] is Some);
                return false;
            }
        }
        i = i + 1;
    }
    true
}

fn assembler_fits(
    a: &Assembler,
    flows: &[Option<MaterialFlow>],
    ready_times: &Vec<Number>,
    start_time: Number,
) -> (r: bool)
    ensures
        r == assembler_future_fits(*a, flows@, ready_times@, start_time as int),
{
    if a.assembly_duration <= 0 || ready_times.len() != flows.len() || start_time > i64::MAX
        - a.assembly_duration - TIME_TO_MOVE_MATERIAL {
        return false;
    }
    let mut i: usize = 0;
    while i < a.inputs.len()
        invariant
            i <= a.inputs@.len(),
            forall|j: int| 0 <= j < i ==> (#[trigger] a.inputs@[j]).cost > 0,
        decreases a.inputs@.len() - i,
    {
        if a.inputs[i].cost <= 0 {
            assert(a.inputs@[i as int].cost <= 0);
            return false;
        }
        i = i + 1;
    }
    let mut i: usize = 0;
    while i < a.outputs.len()
        invariant
            i <= a.outputs@.len(),
            forall|j: int|
                0 <= j < i ==> (#[trigger] a.outputs@[j]).amount > 0
                    && crate::flow_pattern::RATE_DIVISOR * a.outputs@[j].amount <= i64::MAX,
        decreases a.outputs@.len() - i,
    {
        let amount = a.outputs[i].amount;
        if amount <= 0 || amount > i64::MAX / crate::flow_pattern::RATE_DIVISOR {
            if amount > 0 {
                assert(crate::flow_pattern::RATE_DIVISOR * amount > i64::MAX) by (nonlinear_arith)
                    requires
                        amount > i64::MAX / crate::flow_pattern::RATE_DIVISOR,
                        crate::flow_pattern::RATE_DIVISOR > 0,
                ;
            }
            assert(a.outputs@[i as int].amount == amount);
            return false;
        }
        assert(crate::flow_pattern::RATE_DIVISOR * amount <= i64::MAX) by (nonlinear_arith)
            requires
                0 < amount <= i64::MAX / crate::flow_pattern::RATE_DIVISOR,
                crate::flow_pattern::RATE_DIVISOR > 0,
        ;
        i = i + 1;
    }
    let mut i: usize = 0;
    while i < ready_times.len()
        invariant
            i <= ready_times@.len(),
            a.assembly_duration > 0,
            forall|j: int|
                0 <= j < i ==> (#[trigger] ready_times@[j]) + TIME_TO_MOVE_MATERIAL
                    + a.assembly_duration + TIME_TO_MOVE_MATERIAL <= i64::MAX,
        decreases ready_times@.len() - i,
    {
        if ready_times[i] > i64::MAX - 2 * TIME_TO_MOVE_MATERIAL - a.assembly_duration {
            assert(ready_times@[i as int] == ready_times[i as int]);
            return false;
        }
        i = i + 1;
    }
    true
}

/// A module's start time and each input's first delivery leave room for one move in `i64`.
pub open spec fn module_times_fit(times: Seq<i64>, start_time: int) -> bool {
    &&& start_time + TIME_TO_MOVE_MATERIAL <= i64::MAX
    &&& forall|i: int| 0 <= i < times.len() ==> (#[trigger] times[i]) + TIME_TO_MOVE_MATERIAL <= i64::MAX
}

fn module_fits(times: &Vec<Number>, start_time: Number) -> (r: bool)
    ensures
        r == module_times_fit(times@, start_time as int),
{
    if start_time > i64::MAX - TIME_TO_MOVE_MATERIAL {
        return false;
    }
    let mut i: usize = 0;
    while i < times.len()
        invariant
            i <= times@.len(),
            forall|j: int|
                0 <= j < i ==> (#[trigger] times@[j]) + TIME_TO_MOVE_MATERIAL <= i64::MAX,
        decreases times@.len() - i,
    {
        if times[i] > i64::MAX - TIME_TO_MOVE_MATERIAL {
            assert(times@[i as int] == times[i as int]);
            return false;
        }
        i = i + 1;
    }
    true
}

/// The flows a module's inside dumped can be passed on, started one move after `start_time`:
/// each has a positive rate, and the delayed start times stay in `i64`.
pub open spec fn dumped_fit(dumped: Seq<(InputLocation, MaterialFlow)>, start_time: int) -> bool {
    &&& crate::arith::in_i64(start_time + TIME_TO_MOVE_MATERIAL)
    &&& forall|i: int|
        0 <= i < dumped.len() ==> (#[trigger] dumped[i]).1.flow@.1 > 0 && crate::arith::in_i64(
            dumped[i].1.flow@.0 + start_time + TIME_TO_MOVE_MATERIAL,
        )
}

fn dumped_fits(dumped: &Vec<(InputLocation, MaterialFlow)>, start_time: Number) -> (r: bool)
    ensures
        r == dumped_fit(dumped@, start_time as int),
{
    if start_time > i64::MAX - TIME_TO_MOVE_MATERIAL {
        return false;
    }
    let delay = start_time + TIME_TO_MOVE_MATERIAL;
    let mut i: usize = 0;
    while i < dumped.len()
        invariant
            i <= dumped@.len(),
            delay == start_time + TIME_TO_MOVE_MATERIAL,
            forall|j: int|
                0 <= j < i ==> (#[trigger] dumped@[j]).1.flow@.1 > 0 && crate::arith::in_i64(
                    dumped@[j].1.flow@.0 + start_time + TIME_TO_MOVE_MATERIAL,
                ),
        decreases dumped@.len() - i,
    {
        let f = dumped[i].1.flow;
        if f.rate() <= 0 {
            assert(dumped@[i as int].1.flow@.1 <= 0);
            return false;
        }
        let t: i128 = f.start_time() as i128 + delay as i128;
        if t < i64::MIN as i128 || t > i64::MAX as i128 {
            assert(!crate::arith::in_i64(dumped@[i as int].1.flow@.0 + start_time + TIME_TO_MOVE_MATERIAL));
            return false;
        }
        i = i + 1;
    }
    true
}

fn same_canonical(a: &Vec<Option<MaterialFlowRate>>, b: &Vec<Option<MaterialFlowRate>>) -> (r: bool)
    ensures
        r == (a@ == b@),
{
    if a.len() != b.len() {
        return false;
    }
    let mut i: usize = 0;
    while i < a.len()
        invariant
            i <= a@.len(),
            a@.len() == b@.len(),
            forall|j: int| 0 <= j < i ==> a@[j] == b@[j],
        decreases a@.len() - i,
    {
        let same = match (a[i], b[i]) {
            (None, None) => true,
            (Some(x), Some(y)) => {
                if x.material == y.material && x.flow.rate() == y.flow.rate() {
                    proof {
                        crate::flow_pattern::lemma_rate_determined(x.flow, y.flow);
                    }
                    true
                } else {
                    false
                }
            },
            _ => false,
        };
        if !same {
            return false;
        }
        i = i + 1;
    }
    assert(a@ =~= b@);
    true
}

fn copy_canonical(a: &Vec<Option<MaterialFlowRate>>) -> (r: Vec<Option<MaterialFlowRate>>)
    ensures
        r@ == a@,
{
    let mut r: Vec<Option<MaterialFlowRate>> = Vec::new();
    let mut i: usize = 0;
    while i < a.len()
        invariant
            i <= a@.len(),
            r@ == a@.take(i as int),
        decreases a@.len() - i,
    {
        r.push(a[i]);
        assert(a@.take(i + 1) =~= a@.take(i as int).push(a@[i as int]));
        i = i + 1;
    }
    assert(a@.take(a@.len() as int) =~= a@);
    r
}

impl ModuleFutures {
    /// An empty memo.
    pub fn new() -> (r: ModuleFutures)
        ensures
            r.entries@.len() == 0,
    {
        ModuleFutures { entries: Vec::new() }
    }

    fn find(&self, id: MachineTypeId, canonical: &Vec<Option<MaterialFlowRate>>) -> (r: Option<usize>)
        ensures
            r matches Some(i) ==> i < self.entries@.len() && memo_lookup(
                self.entries@,
                id,
                canonical@,
            ) == Some(self.entries@[i as int].2),
            r is None ==> memo_lookup(self.entries@, id, canonical@) is None,
    {
        let mut i: usize = 0;
        while i < self.entries.len()
            invariant
                i <= self.entries@.len(),
                memo_lookup(self.entries@, id, canonical@) == memo_lookup_from(
                    self.entries@,
                    id,
                    canonical@,
                    i as int,
                ),
            decreases self.entries@.len() - i,
        {
            if self.entries[i].0 == id && same_canonical(&self.entries[i].1, canonical) {
                return Some(i);
            }
            i = i + 1;
        }
        None
    }
}

proof fn lemma_lookup_prefix(
    earlier: Seq<(MachineTypeId, Vec<Option<MaterialFlowRate>>, RegionFuture)>,
    later: Seq<(MachineTypeId, Vec<Option<MaterialFlowRate>>, RegionFuture)>,
    id: MachineTypeId,
    canonical: Seq<Option<MaterialFlowRate>>,
    i: int,
)
    requires
        memo_extends(earlier, later),
        0 <= i,
        memo_lookup_from(earlier, id, canonical, i) is Some,
    ensures
        memo_lookup_from(later, id, canonical, i) == memo_lookup_from(earlier, id, canonical, i),
    decreases earlier.len() - i,
{
    assert(later[i] == earlier[i]);
    if !(earlier[i].0 == id && earlier[i].1@ == canonical) {
        lemma_lookup_prefix(earlier, later, id, canonical, i + 1);
    }
}

proof fn lemma_lookup_push(
    entries: Seq<(MachineTypeId, Vec<Option<MaterialFlowRate>>, RegionFuture)>,
    e: (MachineTypeId, Vec<Option<MaterialFlowRate>>, RegionFuture),
    i: int,
)
    requires
        0 <= i <= entries.len(),
        memo_lookup_from(entries, e.0, e.1@, i) is None,
    ensures
        memo_lookup_from(entries.push(e), e.0, e.1@, i) == Some(e.2),
    decreases entries.len() - i,
{
    if i < entries.len() {
        assert(entries.push(e)[i] == entries[i]);
        lemma_lookup_push(entries, e, i + 1);
    } else {
        assert(entries.push(e)[i] == e);
    }
}

/// Every module's inside fits the output edges computation.
pub open spec fn module_regions_fit(types: MachineTypes) -> bool {
    &&& forall|i: int|
        0 <= i < types.modules@.len() ==> region_fits(
            types,
            (#[trigger] types.modules@[i]).region.machines@,
        )
    &&& forall|i: int|
        0 <= i < types.presets@.len() ==> ((#[trigger] types.presets@[i]) matches MachineType::Module(
            m,
        ) ==> region_fits(types, m.region.machines@))
}

/// The outputs a distributor or assembler step gives for future `f`.
pub open spec fn step_outputs_ok(
    t: MachineType,
    f: Result<MachineFuture, MachineOperatingState>,
    outs: Seq<Option<MaterialFlow>>,
) -> bool {
    outs == machine_outputs(t, MachineTypeId::Preset(0), f, Seq::empty())
}

/// A distributor's future can be computed from these flows: the summed rate and every first
/// delivery stay in `i64`, and they fit the computation.
pub open spec fn distributor_computable(
    d: Distributor,
    flows: Seq<Option<MaterialFlow>>,
    start_time: int,
) -> bool {
    &&& crate::arith::in_i64(total_present_rate(flows))
    &&& crate::primitive_machines::first_disbursements_computable(flows, start_time)
    &&& distributor_future_fits(
        d.outputs@.len() as int,
        flows,
        total_present_rate(flows),
        first_times(flows, start_time),
        start_time,
    )
}

/// An assembler's future can be computed from these flows: every ready time stays in `i64`,
/// and they fit the computation.
pub open spec fn assembler_computable(
    a: Assembler,
    flows: Seq<Option<MaterialFlow>>,
    start_time: int,
) -> bool {
    &&& crate::primitive_machines::ready_times_computable(a, flows, start_time)
    &&& assembler_future_fits(a, flows, ready_times_spec(a, flows, start_time), start_time)
}

fn distributor_step(d: &Distributor, inputs: MachineObservedInputs) -> (r: Option<
    (Result<MachineFuture, MachineOperatingState>, Vec<Option<MaterialFlow>>),
>)
    ensures
        r is Some <==> distributor_computable(*d, inputs.input_flows@, inputs.start_time as int),
        r matches Some(x) ==> {
            &&& machine_future_ok(
                MachineType::Distributor(*d),
                inputs.input_flows@,
                inputs.start_time as int,
                x.0,
            )
            &&& step_outputs_ok(MachineType::Distributor(*d), x.0, x.1@)
            &&& (x.0 is Err || x.0 matches Ok(MachineFuture::Distributor(_)))
        },
{
    let total = match total_rate_of(inputs.input_flows) {
        Some(t) => t,
        None => {
            return None;
        },
    };
    let times = match crate::primitive_machines::first_disbursements_of_flows(
        inputs.input_flows,
        inputs.start_time,
    ) {
        Some(t) => t,
        None => {
            return None;
        },
    };
    if !distributor_fits(d, inputs.input_flows, total, &times, inputs.start_time) {
        return None;
    }
    let r = d.future(inputs, total, times.as_slice());
    proof {
        assert(first_disbursements_of(inputs.input_flows@, times@, inputs.start_time as int));
    }
    match r {
        Ok(f) => {
            let outs = d.output_flows(&f);
            let x = Ok(MachineFuture::Distributor(f));
            proof {
                assert(outs@ =~= machine_outputs(MachineType::Distributor(*d), MachineTypeId::Preset(0), x, Seq::empty()));
            }
            Some((x, outs))
        },
        Err(e) => {
            let outs: Vec<Option<MaterialFlow>> = Vec::new();
            proof {
                assert(outs@ =~= machine_outputs(MachineType::Distributor(*d), MachineTypeId::Preset(0), Err::<MachineFuture, MachineOperatingState>(e), Seq::empty()));
            }
            Some((Err(e), outs))
        },
    }
}

fn assembler_step(a: &Assembler, inputs: MachineObservedInputs) -> (r: Option<
    (Result<MachineFuture, MachineOperatingState>, Vec<Option<MaterialFlow>>),
>)
    ensures
        r is Some <==> assembler_computable(*a, inputs.input_flows@, inputs.start_time as int),
        r matches Some(x) ==> {
            &&& machine_future_ok(
                MachineType::Assembler(*a),
                inputs.input_flows@,
                inputs.start_time as int,
                x.0,
            )
            &&& step_outputs_ok(MachineType::Assembler(*a), x.0, x.1@)
            &&& (x.0 is Err || x.0 matches Ok(MachineFuture::Assembler(_)))
        },
{
    let times = match a.ready_times(inputs.input_flows, inputs.start_time) {
        Some(t) => t,
        None => {
            return None;
        },
    };
    if !assembler_fits(a, inputs.input_flows, &times, inputs.start_time) {
        return None;
    }
    let r = a.future(inputs, times.as_slice());
    proof {
        assert(ready_times_of(*a, inputs.input_flows@, times@, inputs.start_time as int));
    }
    match r {
        Ok(f) => {
            let outs = a.output_flows(&f);
            let x = Ok(MachineFuture::Assembler(f));
            proof {
                assert(outs@ =~= machine_outputs(MachineType::Assembler(*a), MachineTypeId::Preset(0), x, Seq::empty()));
            }
            Some((x, outs))
        },
        Err(e) => {
            let outs: Vec<Option<MaterialFlow>> = Vec::new();
            proof {
                assert(outs@ =~= machine_outputs(MachineType::Assembler(*a), MachineTypeId::Preset(0), Err::<MachineFuture, MachineOperatingState>(e), Seq::empty()));
            }
            Some((Err(e), outs))
        },
    }
}

fn module_fiat(m: &PlatonicModule, canonical: &Vec<Option<MaterialFlowRate>>) -> (r: Vec<
    (InputLocation, MaterialFlow),
>)
    ensures
        r@ == module_fiat_spec(*m, canonical@),
{
    let n = if m.module_type.inputs.len() <= canonical.len() {
        m.module_type.inputs.len()
    } else {
        canonical.len()
    };
    let mut fiat: Vec<(InputLocation, MaterialFlow)> = Vec::new();
    let mut j: usize = 0;
    while j < n
        invariant
            j <= n,
            n <= m.module_type.inputs@.len(),
            n <= canonical@.len(),
            fiat@ == module_fiat_from(m.module_type.inputs@, canonical@, j as nat),
        decreases n - j,
    {
        if let Some(f) = canonical[j] {
            let p = FlowPattern::new(0, f.flow.rate());
            proof {
                crate::flow_pattern::lemma_pattern_of(p, 0, 0);
            }
            fiat.push(
                (
                    m.module_type.inputs[j].inner_location,
                    MaterialFlow { material: f.material, flow: p },
                ),
            );
        }
        j = j + 1;
    }
    fiat
}

/// A machine step that failed: the machine's future where it was computed, and the failure of
/// a module's inside where that is what failed.
pub type StepFailure = (Result<MachineFuture, MachineOperatingState>, Option<Box<RegionFailure>>);

/// A machine step that succeeded: the machine's future and its outputs.
pub type StepResult = (Result<MachineFuture, MachineOperatingState>, Vec<Option<MaterialFlow>>);

fn copy_flows(a: &Vec<Option<MaterialFlow>>) -> (r: Vec<Option<MaterialFlow>>)
    ensures
        r@ == a@,
{
    let mut r: Vec<Option<MaterialFlow>> = Vec::new();
    let mut i: usize = 0;
    while i < a.len()
        invariant
            i <= a@.len(),
            r@ == a@.take(i as int),
        decreases a@.len() - i,
    {
        r.push(a[i]);
        assert(a@.take(i + 1) =~= a@.take(i as int).push(a@[i as int]));
        i = i + 1;
    }
    assert(a@.take(a@.len() as int) =~= a@);
    r
}

fn fiat_at_exec(fiat: &[(InputLocation, MaterialFlow)], location: InputLocation) -> (r: Option<
    MaterialFlow,
>)
    ensures
        r == fiat_at(fiat@, location, 0),
{
    let mut i: usize = 0;
    while i < fiat.len()
        invariant
            i <= fiat@.len(),
            fiat_at(fiat@, location, 0) == fiat_at(fiat@, location, i as int),
        decreases fiat@.len() - i,
    {
        if fiat[i].0 == location {
            return Some(fiat[i].1);
        }
        i = i + 1;
    }
    None
}

fn module_step(
    types: &MachineTypes,
    m: &PlatonicModule,
    id: MachineTypeId,
    inputs: MachineObservedInputs,
    memo: &mut ModuleFutures,
    depth: usize,
) -> (r: Result<StepResult, StepFailure>)
    requires
        module_regions_fit(*types),
        region_fits(*types, m.region.machines@),
        kind_of(*types, id) == MachineType::Module(*m),
        memo_valid(*types, old(memo).entries@),
    ensures
        memo_extends(old(memo).entries@, final(memo).entries@),
        memo_valid(*types, final(memo).entries@),
        r matches Ok(x) ==> {
            &&& machine_future_ok(
                MachineType::Module(*m),
                inputs.input_flows@,
                inputs.start_time as int,
                x.0,
            )
            &&& x.1@ == machine_outputs(MachineType::Module(*m), id, x.0, final(memo).entries@)
            &&& x.0 matches Ok(MachineFuture::Module(f)) && memo_lookup(
                final(memo).entries@,
                id,
                f.canonical_inputs@,
            ) is Some
        },
        r matches Err(x) ==> step_fails(
            *types,
            id,
            inputs.input_flows@,
            inputs.start_time as int,
            x.0,
            x.1,
            final(memo).entries@,
            depth as nat,
        ),
    decreases depth, 0int,
{
    let ghost start_entries = memo.entries@;
    assert(memo.entries@.take(memo.entries@.len() as int) =~= memo.entries@);
    let times = match crate::primitive_machines::first_disbursements_of_flows(
        inputs.input_flows,
        inputs.start_time,
    ) {
        Some(t) => t,
        None => {
            return Err((Err(MachineOperatingState::InCycle), None));
        },
    };
    if !module_fits(&times, inputs.start_time) {
        return Err((Err(MachineOperatingState::InCycle), None));
    }
    let f = match m.future(inputs, times.as_slice()) {
        Ok(f) => f,
        Err(_) => {
            assert(false);
            return Err((Err(MachineOperatingState::InCycle), None));
        },
    };
    let ghost fs = f;
    let idx = match memo.find(id, &f.canonical_inputs) {
        Some(i) => i,
        None => {
            if depth == 0 {
                return Err((Ok(MachineFuture::Module(f)), None));
            }
            let fiat = module_fiat(m, &f.canonical_inputs);
            let edges = m.region.output_edges(types);
            let ordering = m.region.topological_ordering_of_noncyclic_machines(&edges);
            let inside = match m.region.region_future_within(
                types,
                &edges,
                &ordering,
                fiat.as_slice(),
                memo,
                depth - 1,
            ) {
                Ok(x) => x,
                Err(failure) => {
                    let ghost em = edges@.map_values(|o: Vec<Option<(usize, usize)>>| o@);
                    let ghost fl = failure;
                    let inner = Some(Box::new(failure));
                    proof {
                        assert(module_of(*types, id) == *m);
                        assert(edges_of_region(*types, m.region.machines@, em));
                        assert(is_noncyclic_topological_ordering(em, m.region.machines@.len() as int, ordering@));
                        assert(failure_valid(*types, m.region.machines@, em, ordering@, module_fiat_spec(*m, fs.canonical_inputs@), fl, memo.entries@, (depth - 1) as nat));
                        assert(inner->0 == fl);
                    }
                    return Err((Ok(MachineFuture::Module(f)), inner));
                },
            };
            match memo.find(id, &f.canonical_inputs) {
                Some(i) => i,
                None => {
                    let key = copy_canonical(&f.canonical_inputs);
                    let ghost before = memo.entries@;
                    let ghost entry = (id, key, inside);
                    memo.entries.push((id, key, inside));
                    proof {
                        lemma_push_valid(
                            *types,
                            before,
                            entry,
                            *m,
                            edges@.map_values(|o: Vec<Option<(usize, usize)>>| o@),
                            ordering@,
                        );
                        assert(memo.entries@.take(before.len() as int) =~= before);
                        assert(memo.entries@.take(start_entries.len() as int) =~= start_entries);
                    }
                    memo.entries.len() - 1
                },
            }
        },
    };
    assert(memo_lookup(memo.entries@, id, f.canonical_inputs@) == Some(memo.entries@[idx as int].2));
    if !dumped_fits(&memo.entries[idx].2.dumped, f.start_time) {
        return Err((Ok(MachineFuture::Module(f)), None));
    }
    let outs = m.module_output_flows(&f, memo.entries[idx].2.dumped.as_slice());
    let x = Ok(MachineFuture::Module(f));
    proof {
        let dumped = memo.entries@[idx as int].2.dumped@;
        let expected = module_outputs(*m, dumped, fs.start_time + TIME_TO_MOVE_MATERIAL);
        assert forall|k: int| 0 <= k < outs@.len() implies outs@[k] == expected[k] by {
            if let Some(g) = outs@[k] {
                crate::flow_pattern::lemma_pattern_of(g.flow, 0, 0);
            }
        }
        assert(outs@ =~= expected);
    }
    Ok((x, outs))
}

fn machine_step(
    types: &MachineTypes,
    machine: &StatefulMachine,
    flows: &Vec<Option<MaterialFlow>>,
    memo: &mut ModuleFutures,
    depth: usize,
) -> (r: Result<StepResult, StepFailure>)
    requires
        crate::machine_data::placed_machine_fits(*types, *machine),
        module_regions_fit(*types),
        memo_valid(*types, old(memo).entries@),
    ensures
        memo_extends(old(memo).entries@, final(memo).entries@),
        memo_valid(*types, final(memo).entries@),
        r matches Ok(x) ==> {
            &&& machine_future_ok(
                kind_of(*types, machine.type_id),
                flows@,
                machine.state.last_disturbed_time as int,
                x.0,
            )
            &&& x.1@ == machine_outputs(
                kind_of(*types, machine.type_id),
                machine.type_id,
                x.0,
                final(memo).entries@,
            )
            &&& (x.0 matches Ok(MachineFuture::Module(f)) ==> memo_lookup(
                final(memo).entries@,
                machine.type_id,
                f.canonical_inputs@,
            ) is Some)
        },
        r matches Err(x) ==> step_fails(
            *types,
            machine.type_id,
            flows@,
            machine.state.last_disturbed_time as int,
            x.0,
            x.1,
            final(memo).entries@,
            depth as nat,
        ),
    decreases depth, 1int,
{
    let inputs = MachineObservedInputs {
        input_flows: flows.as_slice(),
        start_time: machine.state.last_disturbed_time,
    };
    proof {
        assert(memo.entries@.take(memo.entries@.len() as int) =~= memo.entries@);
    }
    match machine.type_id {
        MachineTypeId::Preset(i) => {
            match &types.presets[i] {
                MachineType::Distributor(d) => match distributor_step(d, inputs) {
                    Some(x) => Ok(x),
                    None => Err((Err(MachineOperatingState::InCycle), None)),
                },
                MachineType::Assembler(a) => match assembler_step(a, inputs) {
                    Some(x) => Ok(x),
                    None => Err((Err(MachineOperatingState::InCycle), None)),
                },
                MachineType::Module(m) => {
                    assert(types.presets@[i as int] matches MachineType::Module(_));
                    module_step(types, m, machine.type_id, inputs, memo, depth)
                },
            }
        },
        MachineTypeId::Module(i) => {
            assert(region_fits(*types, types.modules@[i as int].region.machines@));
            module_step(types, &types.modules[i], machine.type_id, inputs, memo, depth)
        },
    }
}

/// The flows at the inputs of each machine.
pub open spec fn inputs_of(states: Seq<MachineAndInputsFuture>) -> Seq<Seq<Option<MaterialFlow>>> {
    Seq::new(states.len(), |m: int| states[m].inputs@)
}

fn route(
    states: &mut Vec<MachineAndInputsFuture>,
    dumped: &mut Vec<(InputLocation, MaterialFlow)>,
    outs: &Vec<Option<MaterialFlow>>,
    edges: &Vec<Option<(usize, usize)>>,
    locations: &Vec<InputLocation>,
)
    requires
        forall|j: int|
            0 <= j < edges@.len() ==> ((#[trigger] edges@[j]) matches Some(e) ==> e.0
                < old(states)@.len() && e.1 < old(states)@[e.0 as int].inputs@.len()),
    ensures
        final(states)@.len() == old(states)@.len(),
        forall|x: int|
            0 <= x < final(states)@.len() ==> (#[trigger] final(states)@[x]).future == old(
                states,
            )@[x].future && final(states)@[x].inputs@.len() == old(states)@[x].inputs@.len(),
        (inputs_of(final(states)@), final(dumped)@) == route_outputs(
            (inputs_of(old(states)@), old(dumped)@),
            outs@,
            edges@,
            locations@,
            routed_count(outs@, edges@, locations@),
        ),
{
    let ghost start = (inputs_of(states@), dumped@);
    let ghost original = states@;
    let count = if outs.len() <= edges.len() {
        outs.len()
    } else {
        edges.len()
    };
    let count = if count <= locations.len() {
        count
    } else {
        locations.len()
    };
    let mut j: usize = 0;
    while j < count
        invariant
            j <= count,
            count == routed_count(outs@, edges@, locations@),
            count <= outs@.len(),
            count <= edges@.len(),
            count <= locations@.len(),
            states@.len() == original.len(),
            forall|x: int|
                0 <= x < states@.len() ==> (#[trigger] states@[x]).future == original[x].future
                    && states@[x].inputs@.len() == original[x].inputs@.len(),
            forall|i: int|
                0 <= i < edges@.len() ==> ((#[trigger] edges@[i]) matches Some(e) ==> e.0
                    < original.len() && e.1 < original[e.0 as int].inputs@.len()),
            (inputs_of(states@), dumped@) == route_outputs(
                start,
                outs@,
                edges@,
                locations@,
                j as nat,
            ),
        decreases count - j,
    {
        let ghost before = states@;
        match edges[j] {
            None => {
                if let Some(f) = outs[j] {
                    dumped.push((locations[j], f));
                }
            },
            Some(e) => {
                let a = e.0;
                let b = e.1;
                let value = outs[j];
                let mut entry = states.remove(a);
                entry.inputs.set(b, value);
                states.insert(a, entry);
                proof {
                    assert(inputs_of(states@) =~= inputs_of(before).update(
                        a as int,
                        inputs_of(before)[a as int].update(b as int, value),
                    ));
                }
            },
        }
        j = j + 1;
    }
}

proof fn lemma_valid_extends(
    types: MachineTypes,
    machines: Seq<StatefulMachine>,
    edges: EdgesModel,
    ordering: Seq<usize>,
    fiat: Seq<(InputLocation, MaterialFlow)>,
    rf: RegionFuture,
    memo1: Seq<(MachineTypeId, Vec<Option<MaterialFlowRate>>, RegionFuture)>,
    memo2: Seq<(MachineTypeId, Vec<Option<MaterialFlowRate>>, RegionFuture)>,
)
    requires
        region_future_valid(types, machines, edges, ordering, fiat, rf, memo1),
        memo_extends(memo1, memo2),
    ensures
        region_future_valid(types, machines, edges, ordering, fiat, rf, memo2),
{
    let outs1 = outputs_with(types, machines, rf.machines@, memo1);
    let outs2 = outputs_with(types, machines, rf.machines@, memo2);
    assert forall|j: int| #![trigger ordering[j]] 0 <= j < ordering.len() implies outs1(
        ordering[j] as int,
    ) == outs2(ordering[j] as int) by {
        let x = ordering[j] as int;
        assert(rf.machines@[ordering[j] as int] == rf.machines@[x]);
        if let Ok(MachineFuture::Module(f)) = rf.machines@[x].future {
            lemma_lookup_prefix(memo1, memo2, machines[x].type_id, f.canonical_inputs@, 0);
        }
    }
    assert forall|k: int| 0 <= k <= ordering.len() implies #[trigger] region_state(
        types,
        machines,
        edges,
        ordering,
        fiat,
        outs1,
        k as nat,
    ) == region_state(types, machines, edges, ordering, fiat, outs2, k as nat) by {
        lemma_region_state_agree(types, machines, edges, ordering, fiat, outs1, outs2, k as nat);
    }
    assert forall|k: int| 0 <= k < ordering.len() implies ((#[trigger] rf.machines@[ordering[k] as int]).future matches Ok(
        MachineFuture::Module(f),
    ) ==> memo_lookup(memo2, machines[ordering[k] as int].type_id, f.canonical_inputs@) is Some) by {
        if let Ok(MachineFuture::Module(f)) = rf.machines@[ordering[k] as int].future {
            lemma_lookup_prefix(memo1, memo2, machines[ordering[k] as int].type_id, f.canonical_inputs@, 0);
        }
    }
}

proof fn lemma_entry_extends(
    types: MachineTypes,
    entry: (MachineTypeId, Vec<Option<MaterialFlowRate>>, RegionFuture),
    memo1: Seq<(MachineTypeId, Vec<Option<MaterialFlowRate>>, RegionFuture)>,
    memo2: Seq<(MachineTypeId, Vec<Option<MaterialFlowRate>>, RegionFuture)>,
)
    requires
        memo_entry_ok(types, entry, memo1),
        memo_extends(memo1, memo2),
    ensures
        memo_entry_ok(types, entry, memo2),
{
    let m = module_of(types, entry.0);
    let (edges, ordering) = choose|edges: EdgesModel, ordering: Seq<usize>|
        edges_of_region(types, m.region.machines@, edges) && is_noncyclic_topological_ordering(
            edges,
            m.region.machines@.len() as int,
            ordering,
        ) && region_future_valid(
            types,
            m.region.machines@,
            edges,
            ordering,
            module_fiat_spec(m, entry.1@),
            entry.2,
            memo1,
        );
    lemma_valid_extends(
        types,
        m.region.machines@,
        edges,
        ordering,
        module_fiat_spec(m, entry.1@),
        entry.2,
        memo1,
        memo2,
    );
}

proof fn lemma_push_valid(
    types: MachineTypes,
    before: Seq<(MachineTypeId, Vec<Option<MaterialFlowRate>>, RegionFuture)>,
    entry: (MachineTypeId, Vec<Option<MaterialFlowRate>>, RegionFuture),
    m: PlatonicModule,
    edges: EdgesModel,
    ordering: Seq<usize>,
)
    requires
        memo_valid(types, before),
        kind_of(types, entry.0) == MachineType::Module(m),
        edges_of_region(types, m.region.machines@, edges),
        is_noncyclic_topological_ordering(edges, m.region.machines@.len() as int, ordering),
        region_future_valid(
            types,
            m.region.machines@,
            edges,
            ordering,
            module_fiat_spec(m, entry.1@),
            entry.2,
            before,
        ),
        memo_lookup(before, entry.0, entry.1@) is None,
    ensures
        memo_valid(types, before.push(entry)),
        memo_extends(before, before.push(entry)),
        memo_lookup(before.push(entry), entry.0, entry.1@) == Some(entry.2),
{
    let after = before.push(entry);
    lemma_lookup_push(before, entry, 0);
    assert(after.take(before.len() as int) =~= before);
    lemma_valid_extends(
        types,
        m.region.machines@,
        edges,
        ordering,
        module_fiat_spec(m, entry.1@),
        entry.2,
        before,
        after,
    );
    assert(module_of(types, entry.0) == m);
    assert(memo_entry_ok(types, entry, after));
    assert(after[before.len() as int] == entry);
    lemma_memo_valid_extends(types, before, after);
}

/// A memo with no entries records no wrong future.
pub proof fn lemma_empty_memo_valid(types: MachineTypes)
    ensures
        memo_valid(types, Seq::empty()),
{
    reveal(memo_valid);
}

/// Adding entries keeps the recorded futures right, where the new entries are right.
proof fn lemma_memo_valid_extends(
    types: MachineTypes,
    memo1: Seq<(MachineTypeId, Vec<Option<MaterialFlowRate>>, RegionFuture)>,
    memo2: Seq<(MachineTypeId, Vec<Option<MaterialFlowRate>>, RegionFuture)>,
)
    requires
        memo_valid(types, memo1),
        memo_extends(memo1, memo2),
        forall|i: int| memo1.len() <= i < memo2.len() ==> memo_entry_ok(types, #[trigger] memo2[i], memo2),
    ensures
        memo_valid(types, memo2),
{
    reveal(memo_valid);
    assert forall|i: int| 0 <= i < memo2.len() implies memo_entry_ok(types, #[trigger] memo2[i], memo2) by {
        if i < memo1.len() {
            assert(memo2[i] == memo1[i]) by {
                assert(memo2.take(memo1.len() as int)[i] == memo2[i]);
            }
            lemma_entry_extends(types, memo1[i], memo1, memo2);
        }
    }
}

proof fn lemma_region_state_agree(
    types: MachineTypes,
    machines: Seq<StatefulMachine>,
    edges: EdgesModel,
    ordering: Seq<usize>,
    fiat: Seq<(InputLocation, MaterialFlow)>,
    outs1: spec_fn(int) -> Seq<Option<MaterialFlow>>,
    outs2: spec_fn(int) -> Seq<Option<MaterialFlow>>,
    k: nat,
)
    requires
        k <= ordering.len(),
        forall|j: int| #![trigger ordering[j]] 0 <= j < k ==> outs1(ordering[j] as int) == outs2(ordering[j] as int),
    ensures
        region_state(types, machines, edges, ordering, fiat, outs1, k) == region_state(
            types,
            machines,
            edges,
            ordering,
            fiat,
            outs2,
            k,
        ),
    decreases k,
{
    if k > 0 {
        lemma_region_state_agree(types, machines, edges, ordering, fiat, outs1, outs2, (k - 1) as nat);
        assert(outs1(ordering[k - 1] as int) == outs2(ordering[k - 1] as int));
    }
}

/// The state of a region's visit after the first `k` machines of the ordering: the inputs and
/// dumped flows are those the visited machines' outputs give, unvisited machines are in a
/// cycle so far, and each visited machine's future is its type's future over its inputs when it
/// was visited.
#[verifier::opaque]
pub open spec fn visit_inv(
    types: MachineTypes,
    machines: Seq<StatefulMachine>,
    em: EdgesModel,
    ordering: Seq<usize>,
    fiat: Seq<(InputLocation, MaterialFlow)>,
    states: Seq<MachineAndInputsFuture>,
    dumped: Seq<(InputLocation, MaterialFlow)>,
    memo: Seq<(MachineTypeId, Vec<Option<MaterialFlowRate>>, RegionFuture)>,
    k: int,
) -> bool {
    let outs = outputs_with(types, machines, states, memo);
    &&& states.len() == machines.len()
    &&& (inputs_of(states), dumped) == region_state(types, machines, em, ordering, fiat, outs, k as nat)
    &&& forall|x: int|
        0 <= x < machines.len() && !ordering.take(k).contains(x as usize) ==> (
        #[trigger] states[x]).future == Err::<MachineFuture, MachineOperatingState>(
            MachineOperatingState::InCycle,
        )
    &&& forall|j: int|
        0 <= j < k ==> machine_future_ok(
            kind_of(types, machines[ordering[j] as int].type_id),
            region_state(types, machines, em, ordering, fiat, outs, j as nat).0[ordering[j] as int],
            machines[ordering[j] as int].state.last_disturbed_time as int,
            #[trigger] states[ordering[j] as int].future,
        )
    &&& forall|j: int|
        0 <= j < k ==> ((#[trigger] states[ordering[j] as int]).future matches Ok(
            MachineFuture::Module(f),
        ) ==> memo_lookup(memo, machines[ordering[j] as int].type_id, f.canonical_inputs@) is Some)
}

/// The largest nesting of modules a region's future follows: the number of machine types.
pub open spec fn nesting_limit(types: MachineTypes) -> nat {
    if types.presets@.len() + types.modules@.len() <= usize::MAX {
        (types.presets@.len() + types.modules@.len()) as nat
    } else {
        usize::MAX as nat
    }
}

/// A machine named by `id`, with the flows `flows` from `start_time` on, cannot have its
/// future or outputs computed: for a distributor or an assembler, a value would leave `i64`;
/// for a module, its first deliveries or start would leave `i64`, or else (with its future
/// `future`) the inside future recorded for its canonical inputs dumped flows that cannot be
/// passed on, or none is recorded and the nesting limit is reached, or the inside's own
/// future failed as `inside` says.
pub open spec fn step_fails(
    types: MachineTypes,
    id: MachineTypeId,
    flows: Seq<Option<MaterialFlow>>,
    start_time: int,
    future: Result<MachineFuture, MachineOperatingState>,
    inside: Option<Box<RegionFailure>>,
    memo: Seq<(MachineTypeId, Vec<Option<MaterialFlowRate>>, RegionFuture)>,
    depth: nat,
) -> bool
    decreases inside,
{
    match kind_of(types, id) {
        MachineType::Distributor(d) => !distributor_computable(d, flows, start_time),
        MachineType::Assembler(a) => !assembler_computable(a, flows, start_time),
        MachineType::Module(_) => {
            let m = module_of(types, id);
            let inputs_fit = crate::primitive_machines::first_disbursements_computable(
                flows,
                start_time,
            ) && module_times_fit(first_times(flows, start_time), start_time);
            ||| !inputs_fit
            ||| machine_future_ok(MachineType::Module(m), flows, start_time, future) && match future {
                Ok(MachineFuture::Module(f)) => match inside {
                    None => match memo_lookup(memo, id, f.canonical_inputs@) {
                        Some(entry) => !dumped_fit(entry.dumped@, f.start_time as int),
                        None => depth == 0,
                    },
                    Some(inner) => depth > 0 && exists|e: EdgesModel, o: Seq<usize>|
                        #![trigger edges_of_region(types, m.region.machines@, e), is_noncyclic_topological_ordering(e, m.region.machines@.len() as int, o)]
                        edges_of_region(types, m.region.machines@, e)
                            && is_noncyclic_topological_ordering(
                            e,
                            m.region.machines@.len() as int,
                            o,
                        ) && failure_valid(
                            types,
                            m.region.machines@,
                            e,
                            o,
                            module_fiat_spec(m, f.canonical_inputs@),
                            *inner,
                            memo,
                            (depth - 1) as nat,
                        ),
                },
                _ => false,
            }
        },
    }
}

/// Some failure of the region's future can be shown: a value that leaves `i64`, or modules
/// nested deeper than there are module types.
pub open spec fn region_can_fail(
    types: MachineTypes,
    machines: Seq<StatefulMachine>,
    edges: EdgesModel,
    ordering: Seq<usize>,
    fiat: Seq<(InputLocation, MaterialFlow)>,
    memo: Seq<(MachineTypeId, Vec<Option<MaterialFlowRate>>, RegionFuture)>,
) -> bool {
    exists|fail: RegionFailure|
        #[trigger] failure_valid(types, machines, edges, ordering, fiat, fail, memo, nesting_limit(types))
}

/// `fail` records a failure of a region's future: the visit reached machine `ordering[k]`
/// (`k` = `fail.visited`) in the state `fail.partial`, and that machine's step fails.
pub open spec fn failure_valid(
    types: MachineTypes,
    machines: Seq<StatefulMachine>,
    edges: EdgesModel,
    ordering: Seq<usize>,
    fiat: Seq<(InputLocation, MaterialFlow)>,
    fail: RegionFailure,
    memo: Seq<(MachineTypeId, Vec<Option<MaterialFlowRate>>, RegionFuture)>,
    depth: nat,
) -> bool
    decreases fail,
{
    let k = fail.visited as int;
    let m = ordering[k] as int;
    &&& 0 <= k < ordering.len()
    &&& visit_inv(
        types,
        machines,
        edges,
        ordering,
        fiat,
        fail.partial.machines@,
        fail.partial.dumped@,
        memo,
        k,
    )
    &&& step_fails(
        types,
        machines[m].type_id,
        fail.partial.machines@[m].inputs@,
        machines[m].state.last_disturbed_time as int,
        fail.future,
        fail.inside,
        memo,
        depth,
    )
}

proof fn lemma_visit_extends(
    types: MachineTypes,
    machines: Seq<StatefulMachine>,
    em: EdgesModel,
    ordering: Seq<usize>,
    fiat: Seq<(InputLocation, MaterialFlow)>,
    states: Seq<MachineAndInputsFuture>,
    dumped: Seq<(InputLocation, MaterialFlow)>,
    memo1: Seq<(MachineTypeId, Vec<Option<MaterialFlowRate>>, RegionFuture)>,
    memo2: Seq<(MachineTypeId, Vec<Option<MaterialFlowRate>>, RegionFuture)>,
    k: int,
)
    requires
        visit_inv(types, machines, em, ordering, fiat, states, dumped, memo1, k),
        memo_extends(memo1, memo2),
        0 <= k <= ordering.len(),
    ensures
        visit_inv(types, machines, em, ordering, fiat, states, dumped, memo2, k),
{
    reveal(visit_inv);
    let outs1 = outputs_with(types, machines, states, memo1);
    let outs2 = outputs_with(types, machines, states, memo2);
    assert forall|j: int| #![trigger ordering[j]] 0 <= j < k implies outs1(ordering[j] as int)
        == outs2(ordering[j] as int) by {
        let x = ordering[j] as int;
        assert(states[ordering[j] as int] == states[x]);
        if let Ok(MachineFuture::Module(f)) = states[x].future {
            lemma_lookup_prefix(memo1, memo2, machines[x].type_id, f.canonical_inputs@, 0);
        }
    }
    assert forall|j: int| 0 <= j <= k implies #[trigger] region_state(
        types,
        machines,
        em,
        ordering,
        fiat,
        outs1,
        j as nat,
    ) == region_state(types, machines, em, ordering, fiat, outs2, j as nat) by {
        lemma_region_state_agree(types, machines, em, ordering, fiat, outs1, outs2, j as nat);
    }
    assert forall|j: int| 0 <= j < k implies ((#[trigger] states[ordering[j] as int]).future matches Ok(
        MachineFuture::Module(f),
    ) ==> memo_lookup(memo2, machines[ordering[j] as int].type_id, f.canonical_inputs@) is Some) by {
        if let Ok(MachineFuture::Module(f)) = states[ordering[j] as int].future {
            lemma_lookup_prefix(memo1, memo2, machines[ordering[j] as int].type_id, f.canonical_inputs@, 0);
        }
    }
}

proof fn lemma_visit_start(
    types: MachineTypes,
    machines: Seq<StatefulMachine>,
    em: EdgesModel,
    ordering: Seq<usize>,
    fiat: Seq<(InputLocation, MaterialFlow)>,
    states: Seq<MachineAndInputsFuture>,
    memo: Seq<(MachineTypeId, Vec<Option<MaterialFlowRate>>, RegionFuture)>,
)
    requires
        states.len() == machines.len(),
        inputs_of(states) == initial_inputs(types, machines, fiat),
        forall|j: int|
            0 <= j < states.len() ==> (#[trigger] states[j]).future == Err::<
                MachineFuture,
                MachineOperatingState,
            >(MachineOperatingState::InCycle),
    ensures
        visit_inv(types, machines, em, ordering, fiat, states, Seq::empty(), memo, 0),
{
    reveal(visit_inv);
}

proof fn lemma_visit_end(
    types: MachineTypes,
    machines: Seq<StatefulMachine>,
    em: EdgesModel,
    ordering: Seq<usize>,
    fiat: Seq<(InputLocation, MaterialFlow)>,
    states: Seq<MachineAndInputsFuture>,
    dumped: Seq<(InputLocation, MaterialFlow)>,
    memo: Seq<(MachineTypeId, Vec<Option<MaterialFlowRate>>, RegionFuture)>,
)
    requires
        visit_inv(types, machines, em, ordering, fiat, states, dumped, memo, ordering.len() as int),
    ensures
        forall|rf: RegionFuture|
            rf.machines@ == states && rf.dumped@ == dumped ==> #[trigger] region_future_valid(
                types,
                machines,
                em,
                ordering,
                fiat,
                rf,
                memo,
            ),
{
    reveal(visit_inv);
    assert(ordering.take(ordering.len() as int) =~= ordering);
    let last = region_state(types, machines, em, ordering, fiat, outputs_with(types, machines, states, memo), ordering.len());
    assert forall|m: int| 0 <= m < machines.len() implies (#[trigger] states[m]).inputs@ == last.0[m] by {
        assert(inputs_of(states)[m] == states[m].inputs@);
    }
}

proof fn lemma_edges_in_range(
    types: MachineTypes,
    machines: Seq<StatefulMachine>,
    em: EdgesModel,
    states: Seq<MachineAndInputsFuture>,
    m: int,
)
    requires
        edges_of_region(types, machines, em),
        0 <= m < machines.len(),
        states.len() == machines.len(),
        forall|x: int|
            0 <= x < states.len() ==> (#[trigger] states[x]).inputs@.len() == placed_inputs(
                types,
                machines[x],
            ).len(),
    ensures
        forall|j: int|
            0 <= j < em[m].len() ==> ((#[trigger] em[m][j]) matches Some(e) ==> e.0 < states.len()
                && e.1 < states[e.0 as int].inputs@.len()),
{
    assert forall|j: int| 0 <= j < em[m].len() implies ((#[trigger] em[m][j]) matches Some(e) ==> e.0
        < states.len() && e.1 < states[e.0 as int].inputs@.len()) by {
        assert(crate::graph_algorithms::first_input_at(
            crate::graph_algorithms::region_inputs(types, machines),
            placed_outputs(types, machines[m])[j],
            em[m][j],
        ));
        if let Some(e) = em[m][j] {
            assert(crate::graph_algorithms::input_at(
                crate::graph_algorithms::region_inputs(types, machines),
                e.0 as int,
                e.1 as int,
                placed_outputs(types, machines[m])[j],
            ));
        }
    }
}

#[verifier::rlimit(50)]
proof fn lemma_visit_step(
    types: MachineTypes,
    machines: Seq<StatefulMachine>,
    em: EdgesModel,
    ordering: Seq<usize>,
    fiat: Seq<(InputLocation, MaterialFlow)>,
    old_states: Seq<MachineAndInputsFuture>,
    old_dumped: Seq<(InputLocation, MaterialFlow)>,
    old_memo: Seq<(MachineTypeId, Vec<Option<MaterialFlowRate>>, RegionFuture)>,
    new_memo: Seq<(MachineTypeId, Vec<Option<MaterialFlowRate>>, RegionFuture)>,
    mid_states: Seq<MachineAndInputsFuture>,
    new_states: Seq<MachineAndInputsFuture>,
    new_dumped: Seq<(InputLocation, MaterialFlow)>,
    m: usize,
    k: int,
    future: Result<MachineFuture, MachineOperatingState>,
    outs: Seq<Option<MaterialFlow>>,
)
    requires
        visit_inv(types, machines, em, ordering, fiat, old_states, old_dumped, old_memo, k),
        0 <= k < ordering.len(),
        m == ordering[k],
        is_noncyclic_topological_ordering(em, machines.len() as int, ordering),
        m < machines.len(),
        memo_extends(old_memo, new_memo),
        machine_future_ok(
            kind_of(types, machines[m as int].type_id),
            old_states[m as int].inputs@,
            machines[m as int].state.last_disturbed_time as int,
            future,
        ),
        outs == machine_outputs(kind_of(types, machines[m as int].type_id), machines[m as int].type_id, future, new_memo),
        future matches Ok(MachineFuture::Module(f)) ==> memo_lookup(
            new_memo,
            machines[m as int].type_id,
            f.canonical_inputs@,
        ) is Some,
        mid_states.len() == old_states.len(),
        forall|x: int| 0 <= x < old_states.len() && x != m ==> #[trigger] mid_states[x] == old_states[x],
        mid_states[m as int].inputs@ == old_states[m as int].inputs@,
        mid_states[m as int].future == future,
        new_states.len() == mid_states.len(),
        forall|x: int|
            0 <= x < new_states.len() ==> (#[trigger] new_states[x]).future == mid_states[x].future,
        (inputs_of(new_states), new_dumped) == route_outputs(
            (inputs_of(mid_states), old_dumped),
            outs,
            em[m as int],
            placed_outputs(types, machines[m as int]),
            routed_count(outs, em[m as int], placed_outputs(types, machines[m as int])),
        ),
    ensures
        visit_inv(types, machines, em, ordering, fiat, new_states, new_dumped, new_memo, k + 1),
{
    reveal(visit_inv);
    let old_outs = outputs_with(types, machines, old_states, old_memo);
    let new_outs = outputs_with(types, machines, new_states, new_memo);
    assert(ordering.take(k + 1) =~= ordering.take(k).push(m));
    assert forall|j: int| #![trigger ordering[j]] 0 <= j < k implies old_outs(ordering[j] as int)
        == new_outs(ordering[j] as int) by {
        let x = ordering[j] as int;
        assert(x != m);
        assert(new_states[x].future == old_states[x].future);
        if let Ok(MachineFuture::Module(f)) = old_states[x].future {
            lemma_lookup_prefix(old_memo, new_memo, machines[x].type_id, f.canonical_inputs@, 0);
        }
    }
    assert forall|j: int| 0 <= j <= k implies #[trigger] region_state(
        types,
        machines,
        em,
        ordering,
        fiat,
        old_outs,
        j as nat,
    ) == region_state(types, machines, em, ordering, fiat, new_outs, j as nat) by {
        lemma_region_state_agree(types, machines, em, ordering, fiat, old_outs, new_outs, j as nat);
    }
    assert(inputs_of(mid_states) =~= inputs_of(old_states)) by {
        assert forall|x: int| 0 <= x < old_states.len() implies inputs_of(mid_states)[x]
            == inputs_of(old_states)[x] by {
            if x != m {
                assert(mid_states[x] == old_states[x]);
            }
        }
    }
    assert(new_outs(m as int) == outs);
    assert(region_state(types, machines, em, ordering, fiat, new_outs, (k + 1) as nat) == route_outputs(
        region_state(types, machines, em, ordering, fiat, new_outs, k as nat),
        new_outs(m as int),
        em[m as int],
        placed_outputs(types, machines[m as int]),
        routed_count(new_outs(m as int), em[m as int], placed_outputs(types, machines[m as int])),
    ));
    assert(old_states[m as int].inputs@ == region_state(types, machines, em, ordering, fiat, new_outs, k as nat).0[m as int]) by {
        assert(inputs_of(old_states)[m as int] == old_states[m as int].inputs@);
    }
    assert forall|j: int| 0 <= j < k + 1 implies machine_future_ok(
        kind_of(types, machines[ordering[j] as int].type_id),
        region_state(types, machines, em, ordering, fiat, new_outs, j as nat).0[ordering[j] as int],
        machines[ordering[j] as int].state.last_disturbed_time as int,
        #[trigger] new_states[ordering[j] as int].future,
    ) by {
        if j < k {
            assert(ordering[j] != m);
            assert(new_states[ordering[j] as int].future == old_states[ordering[j] as int].future);
        }
    }
    assert forall|j: int| 0 <= j < k + 1 implies ((#[trigger] new_states[ordering[j] as int]).future
        matches Ok(MachineFuture::Module(f)) ==> memo_lookup(
        new_memo,
        machines[ordering[j] as int].type_id,
        f.canonical_inputs@,
    ) is Some) by {
        if j < k {
            let x = ordering[j] as int;
            assert(ordering[j] != m);
            assert(new_states[x].future == old_states[x].future);
            if let Ok(MachineFuture::Module(f)) = old_states[x].future {
                lemma_lookup_prefix(old_memo, new_memo, machines[x].type_id, f.canonical_inputs@, 0);
            }
        }
    }
    assert forall|x: int|
        0 <= x < machines.len() && !ordering.take(k + 1).contains(x as usize) implies (
        #[trigger] new_states[x]).future == Err::<MachineFuture, MachineOperatingState>(
            MachineOperatingState::InCycle,
        ) by {
        assert(ordering.take(k + 1)[k] == m);
        if ordering.take(k).contains(x as usize) {
            let w = choose|w: int| 0 <= w < k && ordering.take(k)[w] == x as usize;
            assert(ordering.take(k + 1)[w] == x as usize);
        }
        assert(x != m);
        assert(mid_states[x] == old_states[x]);
    }
}

impl PlatonicRegionContents {
    fn region_future_within(
        &self,
        types: &MachineTypes,
        output_edges: &OutputEdges,
        ordering: &Vec<usize>,
        fiat: &[(InputLocation, MaterialFlow)],
        memo: &mut ModuleFutures,
        depth: usize,
    ) -> (r: Result<RegionFuture, RegionFailure>)
        requires
            region_fits(*types, self.machines@),
            module_regions_fit(*types),
            edges_of_region(
                *types,
                self.machines@,
                output_edges@.map_values(|o: Vec<Option<(usize, usize)>>| o@),
            ),
            is_noncyclic_topological_ordering(
                output_edges@.map_values(|o: Vec<Option<(usize, usize)>>| o@),
                self.machines@.len() as int,
                ordering@,
            ),
            memo_valid(*types, old(memo).entries@),
        ensures
            memo_extends(old(memo).entries@, final(memo).entries@),
            memo_valid(*types, final(memo).entries@),
            r matches Err(fail) ==> failure_valid(
                *types,
                self.machines@,
                output_edges@.map_values(|o: Vec<Option<(usize, usize)>>| o@),
                ordering@,
                fiat@,
                fail,
                final(memo).entries@,
                depth as nat,
            ),
            r matches Ok(rf) ==> region_future_valid(
                *types,
                self.machines@,
                output_edges@.map_values(|o: Vec<Option<(usize, usize)>>| o@),
                ordering@,
                fiat@,
                rf,
                final(memo).entries@,
            ),
        decreases depth, 2int,
    {
        let ghost machines = self.machines@;
        let ghost em = output_edges@.map_values(|o: Vec<Option<(usize, usize)>>| o@);
        let ghost start_memo = memo.entries@;
        let n = self.machines.len();
        let mut states: Vec<MachineAndInputsFuture> = Vec::new();
        let mut i: usize = 0;
        while i < n
            invariant
                i <= n,
                n == machines.len(),
                machines == self.machines@,
                region_fits(*types, machines),
                states@.len() == i,
                forall|j: int|
                    0 <= j < i ==> (#[trigger] states@[j]).inputs@ == initial_inputs(
                        *types,
                        machines,
                        fiat@,
                    )[j] && states@[j].future == Err::<MachineFuture, MachineOperatingState>(
                        MachineOperatingState::InCycle,
                    ),
            decreases n - i,
        {
            let locations = types.input_locations(&self.machines[i]);
            let mut row: Vec<Option<MaterialFlow>> = Vec::new();
            let mut b: usize = 0;
            while b < locations.len()
                invariant
                    b <= locations@.len(),
                    row@ == locations@.take(b as int).map_values(
                        |l: InputLocation| fiat_at(fiat@, l, 0),
                    ),
                decreases locations@.len() - b,
            {
                row.push(fiat_at_exec(fiat, locations[b]));
                assert(locations@.take(b + 1).map_values(|l: InputLocation| fiat_at(fiat@, l, 0))
                    =~= locations@.take(b as int).map_values(
                    |l: InputLocation| fiat_at(fiat@, l, 0),
                ).push(fiat_at(fiat@, locations@[b as int], 0)));
                b = b + 1;
            }
            assert(locations@.take(locations@.len() as int) =~= locations@);
            states.push(
                MachineAndInputsFuture { inputs: row, future: Err(MachineOperatingState::InCycle) },
            );
            i = i + 1;
        }
        let mut dumped: Vec<(InputLocation, MaterialFlow)> = Vec::new();
        proof {
            assert(inputs_of(states@) =~= initial_inputs(*types, machines, fiat@));
            assert(memo.entries@.take(start_memo.len() as int) =~= start_memo);
            lemma_visit_start(*types, machines, em, ordering@, fiat@, states@, memo.entries@);
        }
        let mut k: usize = 0;
        while k < ordering.len()
            invariant
                k <= ordering@.len(),
                n == machines.len(),
                machines == self.machines@,
                states@.len() == n,
                region_fits(*types, machines),
                module_regions_fit(*types),
                em == output_edges@.map_values(|o: Vec<Option<(usize, usize)>>| o@),
                edges_of_region(*types, machines, em),
                is_noncyclic_topological_ordering(em, n as int, ordering@),
                start_memo == old(memo).entries@,
                memo_extends(start_memo, memo.entries@),
                memo_valid(*types, memo.entries@),
                forall|x: int|
                    0 <= x < n ==> (#[trigger] states@[x]).inputs@.len() == placed_inputs(
                        *types,
                        machines[x],
                    ).len(),
                visit_inv(*types, machines, em, ordering@, fiat@, states@, dumped@, memo.entries@, k as int),
            decreases ordering@.len() - k,
        {
            let m = ordering[k];
            assert(m < n);
            let flows = copy_flows(&states[m].inputs);
            let ghost old_states = states@;
            let ghost old_dumped = dumped@;
            let ghost old_memo = memo.entries@;
            let step = machine_step(types, &self.machines[m], &flows, memo, depth);
            proof {
                assert(memo_extends(start_memo, memo.entries@)) by {
                    assert(memo.entries@.take(start_memo.len() as int) =~= memo.entries@.take(
                        old_memo.len() as int,
                    ).take(start_memo.len() as int));
                }
            }
            let (future, outs) = match step {
                Ok(x) => x,
                Err(failed) => {
                    proof {
                        lemma_visit_extends(
                            *types,
                            machines,
                            em,
                            ordering@,
                            fiat@,
                            states@,
                            dumped@,
                            old_memo,
                            memo.entries@,
                            k as int,
                        );
                    }
                    let failure = RegionFailure {
                        partial: RegionFuture { machines: states, dumped },
                        visited: k,
                        future: failed.0,
                        inside: failed.1,
                    };
                    return Err(failure);
                },
            };
            let ghost the_future = future;
            let mut entry = states.remove(m);
            entry.future = future;
            let ghost e = entry;
            states.insert(m, entry);
            let ghost mid_states = states@;
            proof {
                assert(mid_states =~= old_states.update(m as int, e));
                assert(forall|x: int|
                    0 <= x < n ==> (#[trigger] states@[x]).inputs@.len() == placed_inputs(
                        *types,
                        machines[x],
                    ).len());
            }
            let locations = types.output_locations(&self.machines[m]);
            proof {
                lemma_edges_in_range(*types, machines, em, states@, m as int);
                assert(em[m as int] == output_edges@[m as int]@);
            }
            route(&mut states, &mut dumped, &outs, &output_edges[m], &locations);
            proof {
                assert(em[m as int] == output_edges@[m as int]@);
                lemma_visit_step(
                    *types,
                    machines,
                    em,
                    ordering@,
                    fiat@,
                    old_states,
                    old_dumped,
                    old_memo,
                    memo.entries@,
                    mid_states,
                    states@,
                    dumped@,
                    m,
                    k as int,
                    the_future,
                    outs@,
                );
            }
            k = k + 1;
        }
        proof {
            lemma_visit_end(*types, machines, em, ordering@, fiat@, states@, dumped@, memo.entries@);
        }
        Ok(RegionFuture { machines: states, dumped })
    }

    /// The future of the region: its machines are visited in `ordering` (a topological ordering
    /// of the machines outside cycles); each computes its future from the flows at its inputs
    /// (the fiat input at each input's location, until a machine's output leads there) and its
    /// last disturbed time, and passes its outputs on to the inputs they lead to, or to the
    /// dumped list. A module computes its inside's future once per canonical inputs, kept in
    /// `module_futures`. The result is an error, saying where and why, exactly where a machine's
    /// step fails (`step_fails`): a time or rate would leave `i64`, or modules nest deeper than
    /// the number of machine types (a module inside itself).
    pub fn region_future(
        &self,
        types: &MachineTypes,
        output_edges: &OutputEdges,
        ordering: &Vec<usize>,
        fiat_inputs: &[(InputLocation, MaterialFlow)],
        module_futures: &mut ModuleFutures,
    ) -> (r: Result<RegionFuture, RegionFailure>)
        requires
            region_fits(*types, self.machines@),
            module_regions_fit(*types),
            edges_of_region(
                *types,
                self.machines@,
                output_edges@.map_values(|o: Vec<Option<(usize, usize)>>| o@),
            ),
            is_noncyclic_topological_ordering(
                output_edges@.map_values(|o: Vec<Option<(usize, usize)>>| o@),
                self.machines@.len() as int,
                ordering@,
            ),
            memo_valid(*types, old(module_futures).entries@),
        ensures
            memo_extends(old(module_futures).entries@, final(module_futures).entries@),
            memo_valid(*types, final(module_futures).entries@),
            r matches Ok(rf) ==> region_future_valid(
                *types,
                self.machines@,
                output_edges@.map_values(|o: Vec<Option<(usize, usize)>>| o@),
                ordering@,
                fiat_inputs@,
                rf,
                final(module_futures).entries@,
            ),
            r matches Err(fail) ==> failure_valid(
                *types,
                self.machines@,
                output_edges@.map_values(|o: Vec<Option<(usize, usize)>>| o@),
                ordering@,
                fiat_inputs@,
                fail,
                final(module_futures).entries@,
                nesting_limit(*types),
            ),
            !region_can_fail(
                *types,
                self.machines@,
                output_edges@.map_values(|o: Vec<Option<(usize, usize)>>| o@),
                ordering@,
                fiat_inputs@,
                final(module_futures).entries@,
            ) ==> r is Ok,
    {
        let depth = if types.presets.len() <= usize::MAX - types.modules.len() {
            types.presets.len() + types.modules.len()
        } else {
            usize::MAX
        };
        let r = self.region_future_within(
            types,
            output_edges,
            ordering,
            fiat_inputs,
            module_futures,
            depth,
        );
        proof {
            if r is Err {
                let fail = r->Err_0;
                assert(failure_valid(
                    *types,
                    self.machines@,
                    output_edges@.map_values(|o: Vec<Option<(usize, usize)>>| o@),
                    ordering@,
                    fiat_inputs@,
                    fail,
                    module_futures.entries@,
                    nesting_limit(*types),
                ));
            }
        }
        r
    }
}

/// The future of a whole game: the future of its global region, with no fiat inputs, and the
/// futures of the modules' insides it needed; or, with those futures, why it failed.
pub fn game_future(global_region: &PlatonicRegionContents, types: &MachineTypes) -> (r: Result<
    (RegionFuture, ModuleFutures),
    (RegionFailure, ModuleFutures),
>)
    requires
        region_fits(*types, global_region.machines@),
        module_regions_fit(*types),
    ensures
        r matches Ok(x) ==> {
            &&& memo_valid(*types, x.1.entries@)
            &&& exists|edges: EdgesModel, ordering: Seq<usize>|
                #![trigger edges_of_region(*types, global_region.machines@, edges), is_noncyclic_topological_ordering(edges, global_region.machines@.len() as int, ordering)]
                edges_of_region(*types, global_region.machines@, edges)
                    && is_noncyclic_topological_ordering(
                    edges,
                    global_region.machines@.len() as int,
                    ordering,
                ) && region_future_valid(
                    *types,
                    global_region.machines@,
                    edges,
                    ordering,
                    Seq::empty(),
                    x.0,
                    x.1.entries@,
                )
        },
        r matches Err(x) ==> {
            &&& memo_valid(*types, x.1.entries@)
            &&& exists|edges: EdgesModel, ordering: Seq<usize>|
                #![trigger edges_of_region(*types, global_region.machines@, edges), is_noncyclic_topological_ordering(edges, global_region.machines@.len() as int, ordering)]
                edges_of_region(*types, global_region.machines@, edges)
                    && is_noncyclic_topological_ordering(
                    edges,
                    global_region.machines@.len() as int,
                    ordering,
                ) && failure_valid(
                    *types,
                    global_region.machines@,
                    edges,
                    ordering,
                    Seq::empty(),
                    x.0,
                    x.1.entries@,
                    nesting_limit(*types),
                )
        },
{
    let edges = global_region.output_edges(types);
    let ordering = global_region.topological_ordering_of_noncyclic_machines(&edges);
    let mut memo = ModuleFutures::new();
    proof {
        lemma_empty_memo_valid(*types);
        assert(memo.entries@ =~= Seq::<(MachineTypeId, Vec<Option<MaterialFlowRate>>, RegionFuture)>::empty());
    }
    let fiat: Vec<(InputLocation, MaterialFlow)> = Vec::new();
    proof {
        assert(fiat@ =~= Seq::<(InputLocation, MaterialFlow)>::empty());
    }
    match global_region.region_future(types, &edges, &ordering, fiat.as_slice(), &mut memo) {
        Ok(rf) => Ok((rf, memo)),
        Err(fail) => Err((fail, memo)),
    }
}

} // verus!
