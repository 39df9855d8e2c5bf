use vstd::prelude::*;
use std::collections::HashMap;
use vstd::set_lib::{lemma_int_range, lemma_len_subset, set_int_range};
use crate::machine_data::{
    MachineType, MachineTypeId, MachineTypes, Material, PlatonicRegionContents, StatefulMachine,
};
use crate::modules::{ModuleInput, ModuleType, PlatonicModule};

verus! {

/// A module's shape as plain values: the name, icon, radius and cost of its info, its inner
/// radius, its inputs and its outputs.
pub open spec fn module_type_model(t: ModuleType) -> (
    (Seq<char>, Seq<char>, i64, Seq<(i64, Material)>),
    i64,
    Seq<ModuleInput>,
    Seq<ModuleInput>,
) {
    ((t.info.name@, t.info.icon@, t.info.radius, t.info.cost@), t.inner_radius, t.inputs@, t.outputs@)
}

/// Two modules are the same when their shapes, their costs and the machines inside them hold
/// the same values.
pub open spec fn same_module(a: PlatonicModule, b: PlatonicModule) -> bool {
    &&& module_type_model(a.module_type) == module_type_model(b.module_type)
    &&& a.cost@ == b.cost@
    &&& a.region.machines@ == b.region.machines@
}

fn costs_equal(a: &Vec<(i64, Material)>, b: &Vec<(i64, Material)>) -> (r: bool)
    ensures
        r == (a@ == b@),
{
    if a.len() != b.len() {
        return false;
    }
    let mut i: usize = 0;
    while i < a.len()
        invariant
            i <= a@.len(),
            a@.len() == b@.len(),
            forall|j: int| 0 <= j < i ==> a@[j] == b@[j],
        decreases a@.len() - i,
    {
        if a[i].0 != b[i].0 || a[i].1 != b[i].1 {
            assert(a@[i as int] != b@[i as int]);
            return false;
        }
        i = i + 1;
    }
    assert(a@ =~= b@);
    true
}

fn module_inputs_equal(a: &Vec<ModuleInput>, b: &Vec<ModuleInput>) -> (r: bool)
    ensures
        r == (a@ == b@),
{
    if a.len() != b.len() {
        return false;
    }
    let mut i: usize = 0;
    while i < a.len()
        invariant
            i <= a@.len(),
            a@.len() == b@.len(),
            forall|j: int| 0 <= j < i ==> a@[j] == b@[j],
        decreases a@.len() - i,
    {
        if a[i] != b[i] {
            assert(a@[i as int] != b@[i as int]);
            return false;
        }
        i = i + 1;
    }
    assert(a@ =~= b@);
    true
}

fn machines_equal(a: &Vec<StatefulMachine>, b: &Vec<StatefulMachine>) -> (r: bool)
    ensures
        r == (a@ == b@),
{
    if a.len() != b.len() {
        return false;
    }
    let mut i: usize = 0;
    while i < a.len()
        invariant
            i <= a@.len(),
            a@.len() == b@.len(),
            forall|j: int| 0 <= j < i ==> a@[j] == b@[j],
        decreases a@.len() - i,
    {
        if a[i] != b[i] {
            assert(a@[i as int] != b@[i as int]);
            return false;
        }
        i = i + 1;
    }
    assert(a@ =~= b@);
    true
}

/// Whether two modules are the same, field by field.
pub fn modules_equal(a: &PlatonicModule, b: &PlatonicModule) -> (r: bool)
    ensures
        r == same_module(*a, *b),
{
    let ta = &a.module_type;
    let tb = &b.module_type;
    ta.info.name == tb.info.name && ta.info.icon == tb.info.icon && ta.info.radius == tb.info.radius
        && costs_equal(&ta.info.cost, &tb.info.cost) && ta.inner_radius == tb.inner_radius
        && module_inputs_equal(&ta.inputs, &tb.inputs) && module_inputs_equal(
        &ta.outputs,
        &tb.outputs,
    ) && costs_equal(&a.cost, &b.cost) && machines_equal(&a.region.machines, &b.region.machines)
}

/// The machine lists that the search reads, in order: the world's, then those of the kept
/// modules, `kept` giving their old indices.
pub open spec fn regions_in_order(
    world: Seq<StatefulMachine>,
    modules: Seq<PlatonicModule>,
    kept: Seq<usize>,
) -> Seq<Seq<StatefulMachine>> {
    seq![world] + kept.map_values(|r: usize| modules[r as int].region.machines@)
}

/// The machine lists, one after another.
pub open spec fn concat(regions: Seq<Seq<StatefulMachine>>) -> Seq<StatefulMachine>
    decreases regions.len(),
{
    if regions.len() == 0 {
        Seq::empty()
    } else {
        concat(regions.drop_last()) + regions.last()
    }
}

/// Preset `j` is a module that is the same as `module`.
pub open spec fn matches_preset(presets: Seq<MachineType>, module: PlatonicModule, j: int) -> bool {
    &&& 0 <= j < presets.len()
    &&& presets[j] matches MachineType::Module(p) && same_module(p, module)
}

/// Some preset is a module that is the same as `module`.
pub open spec fn is_preset(presets: Seq<MachineType>, module: PlatonicModule) -> bool {
    exists|j: int| matches_preset(presets, module, j)
}

/// Module `i` is the same as no preset and no module of `kept`.
pub open spec fn starts_class(
    presets: Seq<MachineType>,
    modules: Seq<PlatonicModule>,
    kept: Seq<usize>,
    i: int,
) -> bool {
    &&& 0 <= i < modules.len()
    &&& !is_preset(presets, modules[i])
    &&& forall|k: int| 0 <= k < kept.len() ==> !same_module(modules[kept[k] as int], modules[i])
}

/// The old indices of the modules that `machines` refers to, in the order of their first
/// reference, leaving out each that is the same as a preset or as a module listed before it.
pub open spec fn first_references(
    presets: Seq<MachineType>,
    modules: Seq<PlatonicModule>,
    machines: Seq<StatefulMachine>,
) -> Seq<usize>
    decreases machines.len(),
{
    if machines.len() == 0 {
        Seq::empty()
    } else {
        let kept = first_references(presets, modules, machines.drop_last());
        match machines.last().type_id {
            MachineTypeId::Module(i) => if starts_class(presets, modules, kept, i as int) {
                kept.push(i)
            } else {
                kept
            },
            MachineTypeId::Preset(_) => kept,
        }
    }
}

/// Some machine of `machines` is module `i`.
pub open spec fn refers_to(machines: Seq<StatefulMachine>, i: usize) -> bool {
    exists|t: int| 0 <= t < machines.len() && (#[trigger] machines[t]).type_id == MachineTypeId::Module(i)
}

/// Kept module `j` is reached: the world, or the inside of a module kept before it, holds it.
pub open spec fn reached(
    world: Seq<StatefulMachine>,
    modules: Seq<PlatonicModule>,
    kept: Seq<usize>,
    j: int,
) -> bool {
    ||| refers_to(world, kept[j])
    ||| exists|q: int| 0 <= q < j && refers_to(modules[#[trigger] kept[q] as int].region.machines@, kept[j])
}

/// `id` is the new id of old module `i`: the last preset that is the same module, where there
/// is one, else the kept module that is the same.
pub open spec fn new_id(
    presets: Seq<MachineType>,
    modules: Seq<PlatonicModule>,
    kept: Seq<usize>,
    i: int,
    id: MachineTypeId,
) -> bool {
    match id {
        MachineTypeId::Preset(j) => {
            &&& matches_preset(presets, modules[i], j as int)
            &&& forall|j2: int| j < j2 < presets.len() ==> !matches_preset(presets, modules[i], j2)
        },
        MachineTypeId::Module(k) => {
            &&& !is_preset(presets, modules[i])
            &&& k < kept.len()
            &&& same_module(modules[kept[k as int] as int], modules[i])
        },
    }
}

/// `after` is `before` with each module id replaced by the new id of that module.
pub open spec fn renumbered(
    presets: Seq<MachineType>,
    modules: Seq<PlatonicModule>,
    kept: Seq<usize>,
    before: Seq<StatefulMachine>,
    after: Seq<StatefulMachine>,
) -> bool {
    &&& after.len() == before.len()
    &&& forall|t: int|
        0 <= t < before.len() ==> {
            &&& (#[trigger] after[t]).state == before[t].state
            &&& match before[t].type_id {
                MachineTypeId::Preset(_) => after[t].type_id == before[t].type_id,
                MachineTypeId::Module(i) => new_id(presets, modules, kept, i as int, after[t].type_id),
            }
        }
}

/// Every module id among `machines` is below `count`.
pub open spec fn refs_in_range(machines: Seq<StatefulMachine>, count: int) -> bool {
    forall|t: int|
        0 <= t < machines.len() ==> ((#[trigger] machines[t]).type_id matches MachineTypeId::Module(
            i,
        ) ==> i < count)
}

/// Every module id in the world and inside every module names a module that exists.
pub open spec fn game_refs_in_range(types: MachineTypes, world: PlatonicRegionContents) -> bool {
    &&& refs_in_range(world.machines@, types.modules@.len() as int)
    &&& forall|i: int|
        0 <= i < types.modules@.len() ==> refs_in_range(
            (#[trigger] types.modules@[i]).region.machines@,
            types.modules@.len() as int,
        )
}

/// New module `k` is old module `kept[k]` with its inside renumbered.
pub open spec fn kept_module(
    presets: Seq<MachineType>,
    modules: Seq<PlatonicModule>,
    kept: Seq<usize>,
    k: int,
    module: PlatonicModule,
) -> bool {
    let old_module = modules[kept[k] as int];
    &&& module_type_model(module.module_type) == module_type_model(old_module.module_type)
    &&& module.cost@ == old_module.cost@
    &&& renumbered(presets, modules, kept, old_module.region.machines@, module.region.machines@)
}

/// `kept` is what the search from the world finds: the modules that the machines it reads
/// refer to, in the order of their first reference, leaving out each that is the same as a
/// preset or as a module found before it, where it reads the world and then the insides of the
/// modules in `kept`, in order; and each is held by the world or by the inside of a module
/// found before it.
pub open spec fn search_result(types: MachineTypes, world: PlatonicRegionContents, kept: Seq<usize>) -> bool {
    &&& kept == first_references(
        types.presets@,
        types.modules@,
        concat(regions_in_order(world.machines@, types.modules@, kept)),
    )
    &&& forall|j: int|
        0 <= j < kept.len() ==> #[trigger] reached(world.machines@, types.modules@, kept, j)
}

/// `(new_types, new_world)` is `(types, world)` in canonical form, where `kept` lists the old
/// indices of the modules that stay: those that the world reaches, found breadth first from the
/// world, one for each set of modules that are the same and none that is the same as a preset;
/// each is held by the world or by the inside of a module kept before it.
/// The presets stay as they are, module `k` of the new list is old module `kept[k]`, and every
/// module id is replaced by the new id of its module.
pub open spec fn canonical_form(
    types: MachineTypes,
    world: PlatonicRegionContents,
    kept: Seq<usize>,
    new_types: MachineTypes,
    new_world: PlatonicRegionContents,
) -> bool {
    let presets = types.presets@;
    let modules = types.modules@;
    &&& search_result(types, world, kept)
    &&& new_types.presets == types.presets
    &&& new_types.modules@.len() == kept.len()
    &&& renumbered(presets, modules, kept, world.machines@, new_world.machines@)
    &&& forall|k: int|
        0 <= k < kept.len() ==> kept_module(presets, modules, kept, k, #[trigger] new_types.modules@[k])
}

/// What the search knows after reading `processed`: `ids[i]` is the new id of each module
/// found so far, and `kept` lists the kept ones.
spec fn scan_state(
    types: MachineTypes,
    ids: Seq<Option<MachineTypeId>>,
    kept: Seq<usize>,
    processed: Seq<StatefulMachine>,
) -> bool {
    let presets = types.presets@;
    let modules = types.modules@;
    &&& ids.len() == modules.len()
    &&& kept == first_references(presets, modules, processed)
    &&& forall|k: int|
        0 <= k < kept.len() ==> (#[trigger] kept[k]) < modules.len() && ids[kept[k] as int]
            == Some(MachineTypeId::Module(k as usize))
    &&& forall|i: int|
        0 <= i < ids.len() ==> ((#[trigger] ids[i]) matches Some(id) ==> new_id(
            presets,
            modules,
            kept,
            i,
            id,
        ))
    &&& forall|t: int|
        0 <= t < processed.len() ==> ((#[trigger] processed[t]).type_id matches MachineTypeId::Module(
            i,
        ) ==> i < modules.len() && ids[i as int] is Some)
}

proof fn lemma_kept_bound(kept: Seq<usize>, ids: Seq<Option<MachineTypeId>>)
    requires
        kept.len() <= usize::MAX,
        forall|k: int|
            0 <= k < kept.len() ==> (#[trigger] kept[k]) < ids.len() && ids[kept[k] as int]
                == Some(MachineTypeId::Module(k as usize)),
    ensures
        kept.len() <= ids.len(),
{
    let s = kept.map_values(|r: usize| r as int);
    assert(s.no_duplicates()) by {
        assert forall|a: int, b: int| 0 <= a < s.len() && 0 <= b < s.len() && a != b implies s[a]
            != s[b] by {
            assert(kept[a] < ids.len());
            assert(kept[b] < ids.len());
            assert(ids[kept[a] as int] == Some(MachineTypeId::Module(a as usize)));
            assert(ids[kept[b] as int] == Some(MachineTypeId::Module(b as usize)));
            assert((a as usize) as int == a);
            assert((b as usize) as int == b);
        }
    }
    s.unique_seq_to_set();
    lemma_int_range(0, ids.len() as int);
    assert(s.to_set().subset_of(set_int_range(0, ids.len() as int))) by {
        assert forall|x: int| s.to_set().contains(x) implies set_int_range(0, ids.len() as int).contains(x) by {
            let a = choose|a: int| 0 <= a < s.len() && s[a] == x;
            assert(kept[a] < ids.len());
        }
    }
    lemma_len_subset(s.to_set(), set_int_range(0, ids.len() as int));
}

/// Of module `i`, the id it already has: the last preset that is the same, or the kept module
/// that is the same; `None` where it starts a class of its own.
fn existing_id(types: &MachineTypes, kept: &Vec<usize>, i: usize) -> (r: Option<MachineTypeId>)
    requires
        i < types.modules@.len(),
        forall|k: int| 0 <= k < kept@.len() ==> (#[trigger] kept@[k]) < types.modules@.len(),
    ensures
        r matches Some(id) ==> new_id(types.presets@, types.modules@, kept@, i as int, id),
        r is None <==> starts_class(types.presets@, types.modules@, kept@, i as int),
{
    let module = &types.modules[i];
    let mut found: Option<usize> = None;
    let mut j: usize = 0;
    while j < types.presets.len()
        invariant
            i < types.modules@.len(),
            module == types.modules@[i as int],
            j <= types.presets@.len(),
            found matches Some(f) ==> f < j && matches_preset(types.presets@, *module, f as int)
                && forall|j2: int| f < j2 < j ==> !matches_preset(types.presets@, *module, j2),
            found is None ==> forall|j2: int| 0 <= j2 < j ==> !matches_preset(types.presets@, *module, j2),
        decreases types.presets@.len() - j,
    {
        match &types.presets[j] {
            MachineType::Module(p) => {
                if modules_equal(p, module) {
                    found = Some(j);
                }
            },
            _ => {},
        }
        j = j + 1;
    }
    if let Some(f) = found {
        return Some(MachineTypeId::Preset(f));
    }
    let mut k: usize = 0;
    while k < kept.len()
        invariant
            i < types.modules@.len(),
            module == types.modules@[i as int],
            forall|k2: int| 0 <= k2 < kept@.len() ==> (#[trigger] kept@[k2]) < types.modules@.len(),
            !is_preset(types.presets@, *module),
            k <= kept@.len(),
            forall|k2: int| 0 <= k2 < k ==> !same_module(types.modules@[kept@[k2] as int], *module),
        decreases kept@.len() - k,
    {
        if modules_equal(&types.modules[kept[k]], module) {
            return Some(MachineTypeId::Module(k));
        }
        k = k + 1;
    }
    None
}

/// Reads the machines of one region, giving each module it refers to its new id and keeping
/// each that starts a class of its own.
#[verifier::spinoff_prover]
fn scan_region(
    types: &MachineTypes,
    machines: &Vec<StatefulMachine>,
    ids: &mut Vec<Option<MachineTypeId>>,
    kept: &mut Vec<usize>,
    Ghost(before): Ghost<Seq<StatefulMachine>>,
)
    requires
        scan_state(*types, old(ids)@, old(kept)@, before),
        refs_in_range(machines@, types.modules@.len() as int),
    ensures
        scan_state(*types, final(ids)@, final(kept)@, before + machines@),
        old(kept)@.is_prefix_of(final(kept)@),
        forall|i: int| 0 <= i < old(ids)@.len() && (#[trigger] old(ids)@[i]) is Some ==> final(ids)@[i] == old(ids)@[i],
        forall|t: int| 0 <= t < machines@.len() ==> ((#[trigger] machines@[t]).type_id matches MachineTypeId::Module(
            i,
        ) ==> final(ids)@[i as int] is Some),
        forall|j: int|
            old(kept)@.len() <= j < final(kept)@.len() ==> refers_to(machines@, #[trigger] final(kept)@[j]),
{
    let ghost presets = types.presets@;
    let ghost modules = types.modules@;
    let mut j: usize = 0;
    while j < machines.len()
        invariant
            presets == types.presets@,
            modules == types.modules@,
            j <= machines@.len(),
            scan_state(*types, ids@, kept@, before + machines@.take(j as int)),
            old(kept)@.is_prefix_of(kept@),
            refs_in_range(machines@, modules.len() as int),
            ids@.len() == old(ids)@.len(),
            forall|i: int| 0 <= i < old(ids)@.len() && (#[trigger] old(ids)@[i]) is Some ==> ids@[i] == old(ids)@[i],
            forall|j2: int|
                old(kept)@.len() <= j2 < kept@.len() ==> refers_to(machines@, #[trigger] kept@[j2]),
        decreases machines@.len() - j,
    {
        let ghost processed = before + machines@.take(j as int);
        let ghost next = before + machines@.take(j + 1);
        let ghost ids0 = ids@;
        let ghost kept0 = kept@;
        assert(next.drop_last() =~= processed);
        assert(next =~= processed.push(machines@[j as int]));
        let machine = machines[j];
        if let MachineTypeId::Module(i) = machine.type_id {
            assert(machines@[j as int] == machine);
            if ids[i].is_none() {
                match existing_id(types, kept, i) {
                    Some(id) => {
                        ids.set(i, Some(id));
                        assert(!starts_class(presets, modules, kept0, i as int));
                    },
                    None => {
                        let k = kept.len();
                        proof {
                            lemma_kept_bound(kept@, ids@);
                        }
                        kept.push(i);
                        ids.set(i, Some(MachineTypeId::Module(k)));
                        assert(kept@[k as int] == i);
                        assert(refers_to(machines@, i));
                        assert forall|j2: int|
                            old(kept)@.len() <= j2 < kept@.len() implies refers_to(machines@, #[trigger] kept@[j2]) by {
                            if j2 < k {
                                assert(kept@[j2] == kept0[j2]);
                            }
                        }
                        assert forall|k2: int| 0 <= k2 < kept@.len() implies (#[trigger] kept@[k2])
                            < modules.len() && ids@[kept@[k2] as int] == Some(
                            MachineTypeId::Module(k2 as usize),
                        ) by {
                            if k2 < k {
                                assert(kept@[k2] == kept0[k2]);
                                assert(ids0[kept0[k2] as int] == Some(MachineTypeId::Module(k2 as usize)));
                            }
                        }
                        assert forall|i2: int| 0 <= i2 < ids@.len() implies ((#[trigger] ids@[i2]) matches Some(
                            id,
                        ) ==> new_id(presets, modules, kept@, i2, id)) by {
                            if i2 != i {
                                assert(ids@[i2] == ids0[i2]);
                                if let Some(id) = ids0[i2] {
                                    assert(new_id(presets, modules, kept0, i2, id));
                                    if let MachineTypeId::Module(k3) = id {
                                        assert(kept@[k3 as int] == kept0[k3 as int]);
                                    }
                                }
                            }
                        }
                    },
                }
            } else {
                proof {
                    let id = ids0[i as int]->0;
                    assert(new_id(presets, modules, kept0, i as int, id));
                    match id {
                        MachineTypeId::Preset(p) => {
                            assert(matches_preset(presets, modules[i as int], p as int));
                        },
                        MachineTypeId::Module(k3) => {
                            assert(same_module(modules[kept0[k3 as int] as int], modules[i as int]));
                        },
                    }
                    assert(!starts_class(presets, modules, kept0, i as int));
                }
            }
        }
        assert forall|t: int| 0 <= t < next.len() implies ((#[trigger] next[t]).type_id matches MachineTypeId::Module(
            i2,
        ) ==> i2 < modules.len() && ids@[i2 as int] is Some) by {
            if t < processed.len() {
                assert(next[t] == processed[t]);
                if let MachineTypeId::Module(i2) = processed[t].type_id {
                    assert(ids0[i2 as int] is Some);
                }
            } else {
                assert(next[t] == machines@[j as int]);
            }
        }
        j = j + 1;
    }
    assert(machines@.take(machines@.len() as int) =~= machines@);
    assert forall|t: int| 0 <= t < machines@.len() implies ((#[trigger] machines@[t]).type_id matches MachineTypeId::Module(
        i,
    ) ==> ids@[i as int] is Some) by {
        assert((before + machines@)[before.len() + t] == machines@[t]);
    }
}

/// Gives every machine whose id names a module the new id of that module.
fn renumber_machines(machines: &mut Vec<StatefulMachine>, ids: &Vec<Option<MachineTypeId>>)
    requires
        forall|t: int|
            0 <= t < old(machines)@.len() ==> ((#[trigger] old(machines)@[t]).type_id matches MachineTypeId::Module(
                i,
            ) ==> i < ids@.len() && ids@[i as int] is Some),
    ensures
        final(machines)@.len() == old(machines)@.len(),
        forall|t: int|
            0 <= t < old(machines)@.len() ==> {
                &&& (#[trigger] final(machines)@[t]).state == old(machines)@[t].state
                &&& match old(machines)@[t].type_id {
                    MachineTypeId::Preset(_) => final(machines)@[t].type_id == old(machines)@[t].type_id,
                    MachineTypeId::Module(i) => ids@[i as int] == Some(final(machines)@[t].type_id),
                }
            },
{
    let mut t: usize = 0;
    while t < machines.len()
        invariant
            t <= machines@.len(),
            machines@.len() == old(machines)@.len(),
            forall|u: int| t <= u < machines@.len() ==> machines@[u] == old(machines)@[u],
            forall|u: int|
                0 <= u < old(machines)@.len() ==> ((#[trigger] old(machines)@[u]).type_id matches MachineTypeId::Module(
                    i,
                ) ==> i < ids@.len() && ids@[i as int] is Some),
            forall|u: int|
                0 <= u < t ==> {
                    &&& (#[trigger] machines@[u]).state == old(machines)@[u].state
                    &&& match old(machines)@[u].type_id {
                        MachineTypeId::Preset(_) => machines@[u].type_id == old(machines)@[u].type_id,
                        MachineTypeId::Module(i) => ids@[i as int] == Some(machines@[u].type_id),
                    }
                },
        decreases machines@.len() - t,
    {
        let machine = machines[t];
        assert(machine == old(machines)@[t as int]);
        if let MachineTypeId::Module(i) = machine.type_id {
            if let Some(id) = ids[i] {
                machines.set(t, StatefulMachine { type_id: id, state: machine.state });
            }
        }
        t = t + 1;
    }
}

/// Finds, breadth first from the world, the modules that stay and the new id of every module
/// that the world reaches.
#[verifier::spinoff_prover]
fn find_kept_modules(types: &MachineTypes, world: &PlatonicRegionContents) -> (r: (
    Vec<Option<MachineTypeId>>,
    Vec<usize>,
))
    requires
        game_refs_in_range(*types, *world),
    ensures
        scan_state(
            *types,
            r.0@,
            r.1@,
            concat(regions_in_order(world.machines@, types.modules@, r.1@)),
        ),
        forall|t: int| 0 <= t < world.machines@.len() ==> ((#[trigger] world.machines@[t]).type_id matches MachineTypeId::Module(
            i,
        ) ==> r.0@[i as int] is Some),
        forall|k: int, t: int|
            0 <= k < r.1@.len() && 0 <= t < types.modules@[r.1@[k] as int].region.machines@.len()
                ==> ((#[trigger] types.modules@[r.1@[k] as int].region.machines@[t]).type_id matches MachineTypeId::Module(
                i,
            ) ==> r.0@[i as int] is Some),
        forall|j: int| 0 <= j < r.1@.len() ==> #[trigger] reached(world.machines@, types.modules@, r.1@, j),
{
    let ghost w = world.machines@;
    let ghost modules = types.modules@;
    let mut ids: Vec<Option<MachineTypeId>> = Vec::new();
    let mut n: usize = 0;
    while n < types.modules.len()
        invariant
            n <= modules.len(),
            modules == types.modules@,
            ids@.len() == n,
            forall|i: int| 0 <= i < n ==> ids@[i] is None,
        decreases modules.len() - n,
    {
        ids.push(None);
        n = n + 1;
    }
    let mut kept: Vec<usize> = Vec::new();
    assert(first_references(types.presets@, modules, Seq::empty()) == Seq::<usize>::empty());
    scan_region(types, &world.machines, &mut ids, &mut kept, Ghost(Seq::empty()));
    assert(Seq::<StatefulMachine>::empty() + w =~= w);
    proof {
        let ss = regions_in_order(w, modules, kept@).take(1);
        assert(ss.drop_last() =~= Seq::<Seq<StatefulMachine>>::empty());
        assert(ss.last() == w);
        assert(concat(Seq::<Seq<StatefulMachine>>::empty()) == Seq::<StatefulMachine>::empty());
        assert(concat(ss) == concat(ss.drop_last()) + ss.last());
        assert(concat(ss) =~= w);
        assert forall|j: int| 0 <= j < kept@.len() implies #[trigger] reached(w, modules, kept@, j) by {
            assert(refers_to(w, kept@[j]));
        }
    }
    let mut q: usize = 0;
    while q < kept.len()
        invariant
            game_refs_in_range(*types, *world),
            w == world.machines@,
            modules == types.modules@,
            q <= kept@.len(),
            scan_state(*types, ids@, kept@, concat(regions_in_order(w, modules, kept@).take(q + 1))),
            forall|t: int| 0 <= t < w.len() ==> ((#[trigger] w[t]).type_id matches MachineTypeId::Module(
                i,
            ) ==> ids@[i as int] is Some),
            forall|k: int, t: int|
                0 <= k < q && 0 <= t < modules[kept@[k] as int].region.machines@.len()
                    ==> ((#[trigger] modules[kept@[k] as int].region.machines@[t]).type_id matches MachineTypeId::Module(
                    i,
                ) ==> ids@[i as int] is Some),
            forall|j: int| 0 <= j < kept@.len() ==> #[trigger] reached(w, modules, kept@, j),
        decreases modules.len() - q,
    {
        proof {
            lemma_kept_bound(kept@, ids@);
        }
        let r = kept[q];
        let ghost kept0 = kept@;
        let ghost ids0 = ids@;
        let ghost before = concat(regions_in_order(w, modules, kept0).take(q + 1));
        assert(kept0[q as int] < modules.len());
        assert(refs_in_range(modules[r as int].region.machines@, modules.len() as int));
        scan_region(types, &types.modules[r].region.machines, &mut ids, &mut kept, Ghost(before));
        let kl = kept.len();
        proof {
            lemma_kept_bound(kept@, ids@);
            assert(kept0 =~= kept@.subrange(0, kept0.len() as int));
            let ss = regions_in_order(w, modules, kept@).take(q + 2);
            assert forall|x: int| 0 <= x < q + 1 implies ss.drop_last()[x] == regions_in_order(w, modules, kept0).take(q + 1)[x] by {
                if x > 0 {
                    assert(kept@[x - 1] == kept0[x - 1]);
                }
            }
            assert(ss.drop_last() =~= regions_in_order(w, modules, kept0).take(q + 1));
            assert(kept@[q as int] == r);
            assert(ss.last() == modules[r as int].region.machines@);
            assert forall|k: int, t: int|
                0 <= k < q + 1 && 0 <= t < modules[kept@[k] as int].region.machines@.len()
                    implies ((#[trigger] modules[kept@[k] as int].region.machines@[t]).type_id matches MachineTypeId::Module(
                    i,
                ) ==> ids@[i as int] is Some) by {
                assert(kept@[k] == kept0[k]);
                if k < q {
                    if let MachineTypeId::Module(i) = modules[kept0[k] as int].region.machines@[t].type_id {
                        assert(ids0[i as int] is Some);
                    }
                }
            }
            assert forall|t: int| 0 <= t < w.len() implies ((#[trigger] w[t]).type_id matches MachineTypeId::Module(
                i,
            ) ==> ids@[i as int] is Some) by {
                if let MachineTypeId::Module(i) = w[t].type_id {
                    assert(ids0[i as int] is Some);
                }
            }
            assert forall|j: int| 0 <= j < kept@.len() implies #[trigger] reached(w, modules, kept@, j) by {
                if j < kept0.len() {
                    assert(kept@[j] == kept0[j]);
                    assert(reached(w, modules, kept0, j));
                    if !refers_to(w, kept0[j]) {
                        let q2 = choose|q2: int| 0 <= q2 < j && refers_to(modules[#[trigger] kept0[q2] as int].region.machines@, kept0[j]);
                        assert(kept@[q2] == kept0[q2]);
                    }
                } else {
                    assert(refers_to(modules[r as int].region.machines@, kept@[j]));
                    assert(kept@[q as int] == r);
                }
            }
        }
        q = q + 1;
    }
    assert(regions_in_order(w, modules, kept@).take(q + 1) =~= regions_in_order(w, modules, kept@));
    (ids, kept)
}

/// Puts old module `i`, with its inside renumbered, in the slot of its new index, where it is
/// kept and the slot is still empty.
#[verifier::spinoff_prover]
fn place_module(
    slots: &mut Vec<Option<PlatonicModule>>,
    module: PlatonicModule,
    i: usize,
    ids: &Vec<Option<MachineTypeId>>,
    Ghost(types0): Ghost<MachineTypes>,
    Ghost(kept): Ghost<Seq<usize>>,
    Ghost(processed): Ghost<Seq<StatefulMachine>>,
)
    requires
        i < types0.modules@.len(),
        module == types0.modules@[i as int],
        scan_state(types0, ids@, kept, processed),
        forall|k: int, t: int|
            0 <= k < kept.len() && 0 <= t < types0.modules@[kept[k] as int].region.machines@.len()
                ==> ((#[trigger] types0.modules@[kept[k] as int].region.machines@[t]).type_id matches MachineTypeId::Module(
                i2,
            ) ==> i2 < ids@.len() && ids@[i2 as int] is Some),
        old(slots)@.len() == kept.len(),
        forall|k: int|
            0 <= k < kept.len() ==> ((#[trigger] old(slots)@[k]) matches Some(m) ==> kept_module(
                types0.presets@,
                types0.modules@,
                kept,
                k,
                m,
            )),
    ensures
        final(slots)@.len() == old(slots)@.len(),
        forall|k: int|
            0 <= k < kept.len() ==> ((#[trigger] final(slots)@[k]) matches Some(m) ==> kept_module(
                types0.presets@,
                types0.modules@,
                kept,
                k,
                m,
            )),
        forall|k: int| 0 <= k < kept.len() && (#[trigger] old(slots)@[k]) is Some ==> final(slots)@[k] is Some,
        ids@[i as int] matches Some(MachineTypeId::Module(k)) ==> final(slots)@[k as int] is Some,
{
    let ghost presets = types0.presets@;
    let ghost modules = types0.modules@;
    let mut module = module;
    if let Some(MachineTypeId::Module(k)) = ids[i] {
        if slots[k].is_none() {
            let ghost inside0 = module.region.machines@;
            assert(new_id(presets, modules, kept, i as int, MachineTypeId::Module(k)));
            let ghost rep = modules[kept[k as int] as int];
            assert(same_module(rep, module));
            assert(inside0 == rep.region.machines@);
            assert forall|t: int|
                0 <= t < inside0.len() implies ((#[trigger] inside0[t]).type_id matches MachineTypeId::Module(
                    i2,
                ) ==> i2 < ids@.len() && ids@[i2 as int] is Some) by {
                assert(inside0[t] == modules[kept[k as int] as int].region.machines@[t]);
            }
            renumber_machines(&mut module.region.machines, ids);
            assert(kept_module(presets, modules, kept, k as int, module)) by {
                assert forall|t: int| 0 <= t < inside0.len() implies {
                    &&& (#[trigger] module.region.machines@[t]).state == inside0[t].state
                    &&& match inside0[t].type_id {
                        MachineTypeId::Preset(_) => module.region.machines@[t].type_id == inside0[t].type_id,
                        MachineTypeId::Module(i2) => new_id(presets, modules, kept, i2 as int, module.region.machines@[t].type_id),
                    }
                } by {
                    assert(inside0[t] == modules[kept[k as int] as int].region.machines@[t]);
                    if let MachineTypeId::Module(i2) = inside0[t].type_id {
                        assert(ids@[i2 as int] is Some);
                    }
                }
            }
            slots.set(k, Some(module));
        }
    }
}

/// Deduplicates the modules, drops those that the world does not reach, and orders them by
/// where the world first reaches them, breadth first; every module id in the world and in the
/// modules that stay is renumbered to match. The presets stay as they are; a module that is the
/// same as a preset is replaced by that preset (the last one, where several are the same).
/// Every change to a game is followed by this, so that equal games compare equal.
#[verifier::spinoff_prover]
pub fn canonicalize(types: &mut MachineTypes, world: &mut PlatonicRegionContents)
    requires
        game_refs_in_range(*old(types), *old(world)),
    ensures
        exists|kept: Seq<usize>|
            canonical_form(*old(types), *old(world), kept, *final(types), *final(world)),
{
    let ghost types0 = *types;
    let ghost world0 = *world;
    let ghost presets = types.presets@;
    let ghost modules = types.modules@;
    let (ids, kept) = find_kept_modules(types, world);
    let ghost processed = concat(regions_in_order(world0.machines@, modules, kept@));
    renumber_machines(&mut world.machines, &ids);
    assert(renumbered(presets, modules, kept@, world0.machines@, world.machines@)) by {
        assert forall|t: int| 0 <= t < world0.machines@.len() implies {
            &&& (#[trigger] world.machines@[t]).state == world0.machines@[t].state
            &&& match world0.machines@[t].type_id {
                MachineTypeId::Preset(_) => world.machines@[t].type_id == world0.machines@[t].type_id,
                MachineTypeId::Module(i) => new_id(presets, modules, kept@, i as int, world.machines@[t].type_id),
            }
        } by {
            if let MachineTypeId::Module(i) = world0.machines@[t].type_id {
                assert(ids@[i as int] is Some);
            }
        }
    }
    assert forall|k: int, t: int|
        0 <= k < kept@.len() && 0 <= t < modules[kept@[k] as int].region.machines@.len()
            implies ((#[trigger] modules[kept@[k] as int].region.machines@[t]).type_id matches MachineTypeId::Module(
            i,
        ) ==> i < ids@.len() && ids@[i as int] is Some) by {
        assert(kept@[k] < modules.len());
        assert(refs_in_range(modules[kept@[k] as int].region.machines@, modules.len() as int));
    }
    let mut old_modules: Vec<PlatonicModule> = Vec::new();
    std::mem::swap(&mut old_modules, &mut types.modules);
    let mut slots: Vec<Option<PlatonicModule>> = Vec::new();
    let mut n: usize = 0;
    while n < kept.len()
        invariant
            n <= kept@.len(),
            slots@.len() == n,
            forall|k: int| 0 <= k < n ==> slots@[k] is None,
        decreases kept@.len() - n,
    {
        slots.push(None);
        n = n + 1;
    }
    while old_modules.len() > 0
        invariant
            old_modules@.len() <= modules.len(),
            old_modules@ =~= modules.take(old_modules@.len() as int),
            presets == types0.presets@,
            modules == types0.modules@,
            scan_state(types0, ids@, kept@, processed),
            forall|k: int, t: int|
                0 <= k < kept@.len() && 0 <= t < modules[kept@[k] as int].region.machines@.len()
                    ==> ((#[trigger] modules[kept@[k] as int].region.machines@[t]).type_id matches MachineTypeId::Module(
                    i,
                ) ==> i < ids@.len() && ids@[i as int] is Some),
            slots@.len() == kept@.len(),
            forall|k: int|
                0 <= k < kept@.len() ==> ((#[trigger] slots@[k]) matches Some(m) ==> kept_module(
                    presets,
                    modules,
                    kept@,
                    k,
                    m,
                )),
            forall|k: int|
                0 <= k < kept@.len() && kept@[k] >= old_modules@.len() ==> (#[trigger] slots@[k]) is Some,
        decreases old_modules@.len(),
    {
        let module = old_modules.pop().unwrap();
        let i = old_modules.len();
        assert(module == modules[i as int]);
        let ghost slots0 = slots@;
        place_module(&mut slots, module, i, &ids, Ghost(types0), Ghost(kept@), Ghost(processed));
        proof {
            assert forall|k: int|
                0 <= k < kept@.len() && kept@[k] >= old_modules@.len() implies (#[trigger] slots@[k]) is Some by {
                if kept@[k] == i {
                    assert(ids@[i as int] == Some(MachineTypeId::Module(k as usize)));
                } else {
                    assert(slots0[k] is Some);
                }
            }
        }
    }
    let mut new_modules: Vec<PlatonicModule> = Vec::new();
    while slots.len() > 0
        invariant
            slots@.len() + new_modules@.len() == kept@.len(),
            forall|k: int| 0 <= k < slots@.len() ==> ((#[trigger] slots@[k]) matches Some(m) && kept_module(
                presets,
                modules,
                kept@,
                k,
                m,
            )),
            forall|t: int|
                0 <= t < new_modules@.len() ==> kept_module(
                    presets,
                    modules,
                    kept@,
                    slots@.len() + t,
                    #[trigger] new_modules@[t],
                ),
        decreases slots@.len(),
    {
        let ghost before = new_modules@;
        let last = slots.pop().unwrap();
        if let Some(module) = last {
            new_modules.insert(0, module);
            assert forall|t: int| 0 <= t < new_modules@.len() implies kept_module(
                presets,
                modules,
                kept@,
                slots@.len() + t,
                #[trigger] new_modules@[t],
            ) by {
                if t > 0 {
                    assert(new_modules@[t] == before[t - 1]);
                }
            }
        }
    }
    types.modules = new_modules;
    assert(canonical_form(types0, world0, kept@, *types, *world));
}

proof fn lemma_first_references_distinct(
    presets: Seq<MachineType>,
    modules: Seq<PlatonicModule>,
    machines: Seq<StatefulMachine>,
)
    ensures
        forall|k: int|
            0 <= k < first_references(presets, modules, machines).len() ==> {
                let i = #[trigger] first_references(presets, modules, machines)[k] as int;
                0 <= i < modules.len() && !is_preset(presets, modules[i])
            },
        forall|k1: int, k2: int|
            0 <= k1 < k2 < first_references(presets, modules, machines).len() ==> !same_module(
                modules[#[trigger] first_references(presets, modules, machines)[k1] as int],
                modules[#[trigger] first_references(presets, modules, machines)[k2] as int],
            ),
    decreases machines.len(),
{
    if machines.len() > 0 {
        lemma_first_references_distinct(presets, modules, machines.drop_last());
        let prev = first_references(presets, modules, machines.drop_last());
        let r = first_references(presets, modules, machines);
        if let MachineTypeId::Module(i) = machines.last().type_id {
            if starts_class(presets, modules, prev, i as int) {
                assert(r == prev.push(i));
                assert forall|k1: int, k2: int| 0 <= k1 < k2 < r.len() implies !same_module(
                    modules[#[trigger] r[k1] as int],
                    modules[#[trigger] r[k2] as int],
                ) by {
                    assert(r[k1] == prev[k1]);
                    if k2 < prev.len() {
                        assert(r[k2] == prev[k2]);
                    }
                }
                assert forall|k: int| 0 <= k < r.len() implies {
                    let i2 = #[trigger] r[k] as int;
                    0 <= i2 < modules.len() && !is_preset(presets, modules[i2])
                } by {
                    if k < prev.len() {
                        assert(r[k] == prev[k]);
                    }
                }
            } else {
                assert(r == prev);
            }
        } else {
            assert(r == prev);
        }
    }
}

/// In canonical form every module that stays is the same as no other that stays and as no
/// preset: the modules are deduplicated.
pub proof fn law_canonical_modules_distinct(
    types: MachineTypes,
    world: PlatonicRegionContents,
    kept: Seq<usize>,
    new_types: MachineTypes,
    new_world: PlatonicRegionContents,
)
    requires
        canonical_form(types, world, kept, new_types, new_world),
    ensures
        forall|k: int|
            0 <= k < kept.len() ==> !is_preset(types.presets@, types.modules@[#[trigger] kept[k] as int]),
        forall|k1: int, k2: int|
            0 <= k1 < k2 < kept.len() ==> !same_module(
                types.modules@[#[trigger] kept[k1] as int],
                types.modules@[#[trigger] kept[k2] as int],
            ),
{
    lemma_first_references_distinct(
        types.presets@,
        types.modules@,
        concat(regions_in_order(world.machines@, types.modules@, kept)),
    );
}

proof fn lemma_first_references_extend(
    presets: Seq<MachineType>,
    modules: Seq<PlatonicModule>,
    a: Seq<StatefulMachine>,
    b: Seq<StatefulMachine>,
)
    ensures
        first_references(presets, modules, a).len() <= first_references(presets, modules, a + b).len(),
        forall|x: int|
            0 <= x < first_references(presets, modules, a).len() ==> first_references(
                presets,
                modules,
                a + b,
            )[x] == #[trigger] first_references(presets, modules, a)[x],
    decreases b.len(),
{
    if b.len() == 0 {
        assert(a + b =~= a);
    } else {
        let b1 = b.drop_last();
        assert((a + b).drop_last() =~= a + b1);
        lemma_first_references_extend(presets, modules, a, b1);
    }
}

proof fn lemma_concat_append(x: Seq<Seq<StatefulMachine>>, y: Seq<Seq<StatefulMachine>>)
    ensures
        concat(x + y) == concat(x) + concat(y),
    decreases y.len(),
{
    if y.len() == 0 {
        assert(x + y =~= x);
        assert(concat(y) == Seq::<StatefulMachine>::empty());
        assert(concat(x) + concat(y) =~= concat(x));
    } else {
        let y1 = y.drop_last();
        assert((x + y).drop_last() =~= x + y1);
        assert((x + y).last() == y.last());
        lemma_concat_append(x, y1);
        assert(concat(x + y) =~= concat(x) + concat(y));
    }
}

proof fn lemma_concat_refers(ss: Seq<Seq<StatefulMachine>>, q: int, i: usize)
    requires
        0 <= q < ss.len(),
        refers_to(ss[q], i),
    ensures
        refers_to(concat(ss), i),
    decreases ss.len(),
{
    let init = ss.drop_last();
    if q == ss.len() - 1 {
        let t = choose|t: int| 0 <= t < ss[q].len() && (#[trigger] ss[q][t]).type_id == MachineTypeId::Module(i);
        assert(concat(ss) == concat(init) + ss.last());
        assert(concat(ss)[concat(init).len() + t] == ss[q][t]);
    } else {
        assert(init[q] == ss[q]);
        lemma_concat_refers(init, q, i);
        let t = choose|t: int| 0 <= t < concat(init).len() && (#[trigger] concat(init)[t]).type_id == MachineTypeId::Module(i);
        assert(concat(ss) == concat(init) + ss.last());
        assert(concat(ss)[t] == concat(init)[t]);
    }
}

/// The machines the search reads before it reads the inside of kept module `j`.
pub open spec fn scanned_before(
    world: Seq<StatefulMachine>,
    modules: Seq<PlatonicModule>,
    kept: Seq<usize>,
    j: int,
) -> Seq<StatefulMachine> {
    concat(regions_in_order(world, modules, kept.take(j)))
}

proof fn lemma_scanned_before_prefix(
    presets: Seq<MachineType>,
    world: Seq<StatefulMachine>,
    modules: Seq<PlatonicModule>,
    kept: Seq<usize>,
    j: int,
)
    requires
        0 <= j <= kept.len(),
    ensures
        first_references(presets, modules, scanned_before(world, modules, kept, j)).len()
            <= first_references(presets, modules, concat(regions_in_order(world, modules, kept))).len(),
        forall|x: int|
            0 <= x < first_references(presets, modules, scanned_before(world, modules, kept, j)).len()
                ==> first_references(
                presets,
                modules,
                concat(regions_in_order(world, modules, kept)),
            )[x] == #[trigger] first_references(
                presets,
                modules,
                scanned_before(world, modules, kept, j),
            )[x],
{
    let all = regions_in_order(world, modules, kept);
    let head = regions_in_order(world, modules, kept.take(j));
    let tail = all.skip(j + 1);
    assert(all =~= head + tail);
    lemma_concat_append(head, tail);
    lemma_first_references_extend(presets, modules, concat(head), concat(tail));
}

/// In canonical form, the search has found kept module `j` before it reads that module's
/// inside.
#[verifier::spinoff_prover]
proof fn lemma_found_before_read(
    types: MachineTypes,
    world: PlatonicRegionContents,
    kept: Seq<usize>,
    j: int,
)
    requires
        search_result(types, world, kept),
        0 <= j < kept.len(),
    ensures
        first_references(
            types.presets@,
            types.modules@,
            scanned_before(world.machines@, types.modules@, kept, j),
        ).len() > j,
{
    let presets = types.presets@;
    let modules = types.modules@;
    let w = world.machines@;
    let all = concat(regions_in_order(w, modules, kept));
    let s = scanned_before(w, modules, kept, j);
    let f = first_references(presets, modules, s);
    lemma_first_references_distinct(presets, modules, all);
    lemma_scanned_before_prefix(presets, w, modules, kept, j);
    let head = regions_in_order(w, modules, kept.take(j));
    assert(reached(w, modules, kept, j));
    if refers_to(w, kept[j]) {
        assert(head[0] == w);
        lemma_concat_refers(head, 0, kept[j]);
    } else {
        let q = choose|q: int| 0 <= q < j && refers_to(modules[#[trigger] kept[q] as int].region.machines@, kept[j]);
        assert(head[q + 1] == modules[kept[q] as int].region.machines@);
        lemma_concat_refers(head, q + 1, kept[j]);
    }
    let t = choose|t: int| 0 <= t < s.len() && (#[trigger] s[t]).type_id == MachineTypeId::Module(kept[j]);
    let pre = s.take(t + 1);
    assert(s =~= pre + s.skip(t + 1));
    lemma_first_references_extend(presets, modules, pre, s.skip(t + 1));
    assert(pre.drop_last() =~= s.take(t));
    assert(pre.last() == s[t]);
    let before = first_references(presets, modules, s.take(t));
    let fp = first_references(presets, modules, pre);
    assert(kept == first_references(presets, modules, all));
    assert((kept[j] as int) < modules.len() && !is_preset(presets, modules[kept[j] as int])) by {
        assert(first_references(presets, modules, all)[j] == kept[j]);
    }
    if starts_class(presets, modules, before, kept[j] as int) {
        assert(fp == before.push(kept[j]));
        let x = before.len() as int;
        assert(fp[x] == kept[j]);
        assert(f[x] == fp[x]);
        assert(kept[x] == f[x]);
        if x < j {
            assert(!same_module(modules[kept[x] as int], modules[kept[j] as int]));
        } else if x > j {
            assert(!same_module(modules[kept[j] as int], modules[kept[x] as int]));
        }
    } else {
        let y = choose|y: int| 0 <= y < before.len() && same_module(modules[before[y] as int], modules[kept[j] as int]);
        assert(fp == before);
        assert(f[y] == fp[y]);
        assert(kept[y] == f[y]);
        if y < j {
            assert(!same_module(modules[kept[y] as int], modules[kept[j] as int]));
        } else if y > j {
            assert(!same_module(modules[kept[j] as int], modules[kept[y] as int]));
        }
    }
}

proof fn lemma_new_id_unique(
    presets: Seq<MachineType>,
    modules: Seq<PlatonicModule>,
    kept: Seq<usize>,
    i: int,
    id1: MachineTypeId,
    id2: MachineTypeId,
)
    requires
        new_id(presets, modules, kept, i, id1),
        new_id(presets, modules, kept, i, id2),
        forall|k1: int, k2: int|
            0 <= k1 < k2 < kept.len() ==> !same_module(
                modules[#[trigger] kept[k1] as int],
                modules[#[trigger] kept[k2] as int],
            ),
    ensures
        id1 == id2,
{
    match (id1, id2) {
        (MachineTypeId::Preset(j1), MachineTypeId::Preset(j2)) => {
            if j1 < j2 {
                assert(!matches_preset(presets, modules[i], j2 as int));
            } else if j2 < j1 {
                assert(!matches_preset(presets, modules[i], j1 as int));
            }
        },
        (MachineTypeId::Preset(j1), MachineTypeId::Module(_)) => {
            assert(matches_preset(presets, modules[i], j1 as int));
        },
        (MachineTypeId::Module(_), MachineTypeId::Preset(j2)) => {
            assert(matches_preset(presets, modules[i], j2 as int));
        },
        (MachineTypeId::Module(k1), MachineTypeId::Module(k2)) => {
            assert(same_module(modules[kept[k1 as int] as int], modules[kept[k2 as int] as int]));
            if k1 < k2 {
                assert(!same_module(modules[kept[k1 as int] as int], modules[kept[k2 as int] as int]));
            } else if k2 < k1 {
                assert(!same_module(modules[kept[k2 as int] as int], modules[kept[k1 as int] as int]));
            }
        },
    }
}

proof fn lemma_renumbered_unique(
    presets: Seq<MachineType>,
    modules: Seq<PlatonicModule>,
    kept: Seq<usize>,
    before: Seq<StatefulMachine>,
    a1: Seq<StatefulMachine>,
    a2: Seq<StatefulMachine>,
)
    requires
        renumbered(presets, modules, kept, before, a1),
        renumbered(presets, modules, kept, before, a2),
        forall|k1: int, k2: int|
            0 <= k1 < k2 < kept.len() ==> !same_module(
                modules[#[trigger] kept[k1] as int],
                modules[#[trigger] kept[k2] as int],
            ),
    ensures
        a1 == a2,
{
    assert forall|t: int| 0 <= t < a1.len() implies a1[t] == a2[t] by {
        assert(a1[t].state == before[t].state);
        assert(a2[t].state == before[t].state);
        if let MachineTypeId::Module(i) = before[t].type_id {
            let id1 = a1[t].type_id;
            let id2 = a2[t].type_id;
            assert(new_id(presets, modules, kept, i as int, id1));
            assert(new_id(presets, modules, kept, i as int, id2));
            match (id1, id2) {
                (MachineTypeId::Preset(j1), MachineTypeId::Preset(j2)) => {
                    if j1 < j2 {
                        assert(!matches_preset(presets, modules[i as int], j2 as int));
                    } else if j2 < j1 {
                        assert(!matches_preset(presets, modules[i as int], j1 as int));
                    }
                },
                (MachineTypeId::Preset(j1), MachineTypeId::Module(_)) => {
                    assert(matches_preset(presets, modules[i as int], j1 as int));
                },
                (MachineTypeId::Module(_), MachineTypeId::Preset(j2)) => {
                    assert(matches_preset(presets, modules[i as int], j2 as int));
                },
                (MachineTypeId::Module(k1), MachineTypeId::Module(k2)) => {
                    assert(same_module(modules[kept[k1 as int] as int], modules[kept[k2 as int] as int]));
                    if k1 < k2 {
                        assert(!same_module(modules[kept[k1 as int] as int], modules[kept[k2 as int] as int]));
                    } else if k2 < k1 {
                        assert(!same_module(modules[kept[k2 as int] as int], modules[kept[k1 as int] as int]));
                    }
                },
            }
        }
    }
    assert(a1 =~= a2);
}

proof fn lemma_kept_prefix_agree(
    types: MachineTypes,
    world: PlatonicRegionContents,
    kept1: Seq<usize>,
    kept2: Seq<usize>,
    j: int,
)
    requires
        search_result(types, world, kept1),
        search_result(types, world, kept2),
        0 <= j <= kept1.len(),
        j <= kept2.len(),
    ensures
        kept1.take(j) == kept2.take(j),
    decreases j,
{
    if j > 0 {
        lemma_kept_prefix_agree(types, world, kept1, kept2, j - 1);
        let presets = types.presets@;
        let modules = types.modules@;
        let w = world.machines@;
        assert(scanned_before(w, modules, kept1, j - 1) == scanned_before(w, modules, kept2, j - 1));
        lemma_found_before_read(types, world, kept1, j - 1);
        lemma_scanned_before_prefix(presets, w, modules, kept1, j - 1);
        lemma_scanned_before_prefix(presets, w, modules, kept2, j - 1);
        let f = first_references(presets, modules, scanned_before(w, modules, kept1, j - 1));
        assert(kept1[j - 1] == f[j - 1]);
        assert(kept2[j - 1] == f[j - 1]);
        assert(kept1.take(j) =~= kept2.take(j)) by {
            assert forall|x: int| 0 <= x < j implies kept1.take(j)[x] == kept2.take(j)[x] by {
                if x < j - 1 {
                    assert(kept1.take(j - 1)[x] == kept2.take(j - 1)[x]);
                }
            }
        }
    }
}

/// The search has one result.
proof fn lemma_search_result_unique(
    types: MachineTypes,
    world: PlatonicRegionContents,
    kept1: Seq<usize>,
    kept2: Seq<usize>,
)
    requires
        search_result(types, world, kept1),
        search_result(types, world, kept2),
    ensures
        kept1 == kept2,
{
    let modules = types.modules@;
    let w = world.machines@;
    if kept1.len() < kept2.len() {
        let l = kept1.len() as int;
        lemma_kept_prefix_agree(types, world, kept1, kept2, l);
        lemma_found_before_read(types, world, kept2, l);
        assert(kept1.take(l) =~= kept1);
        assert(scanned_before(w, modules, kept2, l) == scanned_before(w, modules, kept1, l));
        assert(false);
    } else if kept2.len() < kept1.len() {
        let l = kept2.len() as int;
        lemma_kept_prefix_agree(types, world, kept1, kept2, l);
        lemma_found_before_read(types, world, kept1, l);
        assert(kept2.take(l) =~= kept2);
        assert(scanned_before(w, modules, kept2, l) == scanned_before(w, modules, kept1, l));
        assert(false);
    }
    let l = kept1.len() as int;
    lemma_kept_prefix_agree(types, world, kept1, kept2, l);
    assert(kept1 =~= kept1.take(l));
    assert(kept2 =~= kept2.take(l));
}

/// Canonical form is unique: two canonical forms of one game keep the same modules in the
/// same order, give the world the same machines, and hold the same modules and presets. So
/// `canonicalize` gives one result for each game.
#[verifier::spinoff_prover]
pub proof fn law_canonical_form_unique(
    types: MachineTypes,
    world: PlatonicRegionContents,
    kept1: Seq<usize>,
    t1: MachineTypes,
    w1: PlatonicRegionContents,
    kept2: Seq<usize>,
    t2: MachineTypes,
    w2: PlatonicRegionContents,
)
    requires
        canonical_form(types, world, kept1, t1, w1),
        canonical_form(types, world, kept2, t2, w2),
    ensures
        kept1 == kept2,
        w1.machines@ == w2.machines@,
        t1.presets == t2.presets,
        t1.modules@.len() == t2.modules@.len(),
        forall|k: int| 0 <= k < t1.modules@.len() ==> same_module(t1.modules@[k], t2.modules@[k]),
{
    let presets = types.presets@;
    let modules = types.modules@;
    let w = world.machines@;
    lemma_search_result_unique(types, world, kept1, kept2);
    law_canonical_modules_distinct(types, world, kept1, t1, w1);
    lemma_renumbered_unique(presets, modules, kept1, w, w1.machines@, w2.machines@);
    assert forall|k: int| 0 <= k < t1.modules@.len() implies same_module(t1.modules@[k], t2.modules@[k]) by {
        assert(kept_module(presets, modules, kept1, k, t1.modules@[k]));
        assert(kept_module(presets, modules, kept1, k, t2.modules@[k]));
        let old_module = modules[kept1[k] as int];
        lemma_renumbered_unique(
            presets,
            modules,
            kept1,
            old_module.region.machines@,
            t1.modules@[k].region.machines@,
            t2.modules@[k].region.machines@,
        );
    }
}

proof fn lemma_concat_in_range(ss: Seq<Seq<StatefulMachine>>, count: int)
    requires
        forall|q: int| 0 <= q < ss.len() ==> refs_in_range(#[trigger] ss[q], count),
    ensures
        refs_in_range(concat(ss), count),
    decreases ss.len(),
{
    if ss.len() > 0 {
        let init = ss.drop_last();
        assert forall|q: int| 0 <= q < init.len() implies refs_in_range(#[trigger] init[q], count) by {
            assert(init[q] == ss[q]);
        }
        lemma_concat_in_range(init, count);
        assert(refs_in_range(ss[ss.len() - 1], count));
        let c = concat(ss);
        assert(c == concat(init) + ss.last());
        assert forall|t: int| 0 <= t < c.len() implies ((#[trigger] c[t]).type_id matches MachineTypeId::Module(
            i,
        ) ==> i < count) by {
            if t < concat(init).len() {
                assert(c[t] == concat(init)[t]);
            } else {
                assert(c[t] == ss.last()[t - concat(init).len()]);
            }
        }
    }
}

proof fn lemma_concat_renumbered(
    presets: Seq<MachineType>,
    modules: Seq<PlatonicModule>,
    kept: Seq<usize>,
    ss: Seq<Seq<StatefulMachine>>,
    ss1: Seq<Seq<StatefulMachine>>,
)
    requires
        ss.len() == ss1.len(),
        forall|q: int| 0 <= q < ss.len() ==> renumbered(presets, modules, kept, #[trigger] ss[q], ss1[q]),
    ensures
        renumbered(presets, modules, kept, concat(ss), concat(ss1)),
    decreases ss.len(),
{
    if ss.len() > 0 {
        let init = ss.drop_last();
        let init1 = ss1.drop_last();
        assert forall|q: int| 0 <= q < init.len() implies renumbered(presets, modules, kept, #[trigger] init[q], init1[q]) by {
            assert(init[q] == ss[q]);
            assert(init1[q] == ss1[q]);
        }
        lemma_concat_renumbered(presets, modules, kept, init, init1);
        let last = ss.len() - 1;
        assert(renumbered(presets, modules, kept, ss[last], ss1[last]));
        let c = concat(ss);
        let c1 = concat(ss1);
        assert(c == concat(init) + ss.last());
        assert(c1 == concat(init1) + ss1.last());
        assert forall|t: int| 0 <= t < c.len() implies {
            &&& (#[trigger] c1[t]).state == c[t].state
            &&& match c[t].type_id {
                MachineTypeId::Preset(_) => c1[t].type_id == c[t].type_id,
                MachineTypeId::Module(i) => new_id(presets, modules, kept, i as int, c1[t].type_id),
            }
        } by {
            if t < concat(init).len() {
                assert(c[t] == concat(init)[t]);
                assert(c1[t] == concat(init1)[t]);
            } else {
                let u = t - concat(init).len();
                assert(c[t] == ss[last][u]);
                assert(c1[t] == ss1[last][u]);
            }
        }
    }
}

/// The indices `0..n`.
pub open spec fn identity_ids(n: nat) -> Seq<usize> {
    Seq::new(n, |k: int| k as usize)
}

#[verifier::spinoff_prover]
proof fn lemma_renumbered_first_references(
    presets: Seq<MachineType>,
    modules: Seq<PlatonicModule>,
    kept: Seq<usize>,
    new_modules: Seq<PlatonicModule>,
    a: Seq<StatefulMachine>,
    b: Seq<StatefulMachine>,
)
    requires
        renumbered(presets, modules, kept, a, b),
        refs_in_range(a, modules.len() as int),
        first_references(presets, modules, a).len() <= kept.len(),
        forall|x: int|
            0 <= x < first_references(presets, modules, a).len() ==> kept[x]
                == #[trigger] first_references(presets, modules, a)[x],
        new_modules.len() == kept.len(),
        forall|k1: int, k2: int|
            0 <= k1 < k2 < kept.len() ==> !same_module(
                modules[#[trigger] kept[k1] as int],
                modules[#[trigger] kept[k2] as int],
            ),
        forall|k1: int, k2: int|
            0 <= k1 < k2 < new_modules.len() ==> !same_module(
                #[trigger] new_modules[k1],
                #[trigger] new_modules[k2],
            ),
        forall|k: int| 0 <= k < new_modules.len() ==> !is_preset(presets, #[trigger] new_modules[k]),
    ensures
        first_references(presets, new_modules, b) == identity_ids(
            first_references(presets, modules, a).len(),
        ),
    decreases a.len(),
{
    if a.len() == 0 {
        assert(first_references(presets, new_modules, b) =~= identity_ids(0));
    } else {
        let a0 = a.drop_last();
        let b0 = b.drop_last();
        assert(a0 + seq![a.last()] =~= a);
        lemma_first_references_extend(presets, modules, a0, seq![a.last()]);
        assert forall|t: int| 0 <= t < a0.len() implies {
            &&& (#[trigger] b0[t]).state == a0[t].state
            &&& match a0[t].type_id {
                MachineTypeId::Preset(_) => b0[t].type_id == a0[t].type_id,
                MachineTypeId::Module(i) => new_id(presets, modules, kept, i as int, b0[t].type_id),
            }
        } by {
            assert(a0[t] == a[t]);
            assert(b0[t] == b[t]);
        }
        assert forall|t: int| 0 <= t < a0.len() implies ((#[trigger] a0[t]).type_id matches MachineTypeId::Module(
            i,
        ) ==> i < modules.len()) by {
            assert(a0[t] == a[t]);
        }
        let fa0 = first_references(presets, modules, a0);
        let fa = first_references(presets, modules, a);
        assert forall|x: int| 0 <= x < fa0.len() implies kept[x] == #[trigger] fa0[x] by {
            assert(fa[x] == fa0[x]);
        }
        lemma_renumbered_first_references(presets, modules, kept, new_modules, a0, b0);
        let l = fa0.len();
        let fb0 = first_references(presets, new_modules, b0);
        assert(fb0 == identity_ids(l));
        let last = a.len() - 1;
        assert(a.last() == a[last]);
        assert(b.last() == b[last]);
        match a[last].type_id {
            MachineTypeId::Preset(_) => {
                assert(first_references(presets, new_modules, b) == fb0);
            },
            MachineTypeId::Module(i) => {
                assert(i < modules.len());
                let id = b[last].type_id;
                assert(new_id(presets, modules, kept, i as int, id));
                if starts_class(presets, modules, fa0, i as int) {
                    assert(fa == fa0.push(i));
                    assert(fa[l as int] == i);
                    assert(kept[l as int] == i);
                    match id {
                        MachineTypeId::Preset(j) => {
                            assert(matches_preset(presets, modules[i as int], j as int));
                        },
                        MachineTypeId::Module(k) => {
                            if (k as int) < l {
                                assert(!same_module(modules[kept[k as int] as int], modules[kept[l as int] as int]));
                            } else if (k as int) > l {
                                assert(!same_module(modules[kept[l as int] as int], modules[kept[k as int] as int]));
                            }
                            assert(k == l);
                            assert(starts_class(presets, new_modules, fb0, l as int)) by {
                                assert forall|k2: int| 0 <= k2 < fb0.len() implies !same_module(
                                    new_modules[fb0[k2] as int],
                                    new_modules[l as int],
                                ) by {
                                    assert(fb0[k2] == k2 as usize);
                                    assert(!same_module(new_modules[k2], new_modules[l as int]));
                                }
                            }
                            assert(first_references(presets, new_modules, b) =~= identity_ids(l + 1));
                        },
                    }
                } else {
                    assert(fa == fa0);
                    match id {
                        MachineTypeId::Preset(_) => {
                            assert(first_references(presets, new_modules, b) == fb0);
                        },
                        MachineTypeId::Module(k) => {
                            assert(!is_preset(presets, modules[i as int]));
                            let y = choose|y: int| 0 <= y < fa0.len() && same_module(modules[fa0[y] as int], modules[i as int]);
                            assert(kept[y] == fa0[y]);
                            assert(same_module(modules[kept[k as int] as int], modules[i as int]));
                            if (k as int) < y {
                                assert(!same_module(modules[kept[k as int] as int], modules[kept[y] as int]));
                            } else if (k as int) > y {
                                assert(!same_module(modules[kept[y] as int], modules[kept[k as int] as int]));
                            }
                            assert(fb0[y] == k);
                            assert(!starts_class(presets, new_modules, fb0, k as int));
                            assert(first_references(presets, new_modules, b) == fb0);
                        },
                    }
                }
            },
        }
    }
}

proof fn lemma_renumbered_self(
    presets: Seq<MachineType>,
    modules: Seq<PlatonicModule>,
    kept: Seq<usize>,
    new_modules: Seq<PlatonicModule>,
    before: Seq<StatefulMachine>,
    after: Seq<StatefulMachine>,
)
    requires
        renumbered(presets, modules, kept, before, after),
        new_modules.len() == kept.len(),
        forall|k: int| 0 <= k < new_modules.len() ==> !is_preset(presets, #[trigger] new_modules[k]),
    ensures
        renumbered(presets, new_modules, identity_ids(kept.len()), after, after),
{
    let ids = identity_ids(kept.len());
    assert forall|t: int| 0 <= t < after.len() implies {
        &&& (#[trigger] after[t]).state == after[t].state
        &&& match after[t].type_id {
            MachineTypeId::Preset(_) => after[t].type_id == after[t].type_id,
            MachineTypeId::Module(k) => new_id(presets, new_modules, ids, k as int, after[t].type_id),
        }
    } by {
        if let MachineTypeId::Module(k) = after[t].type_id {
            if let MachineTypeId::Module(i) = before[t].type_id {
                assert(new_id(presets, modules, kept, i as int, after[t].type_id));
            }
            assert(k < kept.len());
            assert(ids[k as int] == k);
            assert(!is_preset(presets, new_modules[k as int]));
        }
    }
}

proof fn lemma_new_id_of_kept(
    presets: Seq<MachineType>,
    modules: Seq<PlatonicModule>,
    kept: Seq<usize>,
    j: int,
    id: MachineTypeId,
)
    requires
        0 <= j < kept.len(),
        new_id(presets, modules, kept, kept[j] as int, id),
        !is_preset(presets, modules[kept[j] as int]),
        forall|k1: int, k2: int|
            0 <= k1 < k2 < kept.len() ==> !same_module(
                modules[#[trigger] kept[k1] as int],
                modules[#[trigger] kept[k2] as int],
            ),
    ensures
        id == MachineTypeId::Module(j as usize),
{
    match id {
        MachineTypeId::Preset(p) => {
            assert(matches_preset(presets, modules[kept[j] as int], p as int));
        },
        MachineTypeId::Module(k) => {
            if (k as int) < j {
                assert(!same_module(modules[kept[k as int] as int], modules[kept[j] as int]));
            } else if (k as int) > j {
                assert(!same_module(modules[kept[j] as int], modules[kept[k as int] as int]));
            }
        },
    }
}

/// A game in canonical form is its own canonical form, keeping every module in place, where
/// renumbering left no two of its modules the same and none the same as a preset. (Where it
/// did, because two modules held modules that were merged, canonicalizing again merges them
/// too.) With `law_canonical_form_unique`, `canonicalize` then gives such a game back as it is.
#[verifier::spinoff_prover]
pub proof fn law_canonical_form_is_canonical(
    types: MachineTypes,
    world: PlatonicRegionContents,
    kept: Seq<usize>,
    new_types: MachineTypes,
    new_world: PlatonicRegionContents,
)
    requires
        game_refs_in_range(types, world),
        canonical_form(types, world, kept, new_types, new_world),
        new_types.modules@.len() <= usize::MAX,
        forall|k1: int, k2: int|
            0 <= k1 < k2 < new_types.modules@.len() ==> !same_module(
                #[trigger] new_types.modules@[k1],
                #[trigger] new_types.modules@[k2],
            ),
        forall|k: int|
            0 <= k < new_types.modules@.len() ==> !is_preset(
                new_types.presets@,
                #[trigger] new_types.modules@[k],
            ),
    ensures
        canonical_form(new_types, new_world, identity_ids(kept.len()), new_types, new_world),
{
    let presets = types.presets@;
    let modules = types.modules@;
    let w = world.machines@;
    let new_modules = new_types.modules@;
    let w1 = new_world.machines@;
    let n = kept.len();
    let ids = identity_ids(n);
    let ss = regions_in_order(w, modules, kept);
    let ss1 = regions_in_order(w1, new_modules, ids);
    let all = concat(ss);
    law_canonical_modules_distinct(types, world, kept, new_types, new_world);
    lemma_first_references_distinct(presets, modules, all);
    assert(new_types.presets@ == presets);
    assert forall|k: int| 0 <= k < n implies (#[trigger] kept[k] as int) < modules.len() by {
        assert(first_references(presets, modules, all)[k] == kept[k]);
    }
    // the search reads the renumbered regions
    assert forall|q: int| 0 <= q < ss.len() implies renumbered(presets, modules, kept, #[trigger] ss[q], ss1[q]) by {
        if q > 0 {
            assert(ids[q - 1] == q - 1);
            assert(kept_module(presets, modules, kept, q - 1, new_modules[q - 1]));
        }
    }
    lemma_concat_renumbered(presets, modules, kept, ss, ss1);
    assert forall|q: int| 0 <= q < ss.len() implies refs_in_range(#[trigger] ss[q], modules.len() as int) by {
        if q > 0 {
            assert(kept[q - 1] < modules.len());
        }
    }
    lemma_concat_in_range(ss, modules.len() as int);
    lemma_renumbered_first_references(presets, modules, kept, new_modules, all, concat(ss1));
    // each kept module is reached in the new game as in the old
    assert forall|j: int| 0 <= j < n implies #[trigger] reached(w1, new_modules, ids, j) by {
        assert(ids[j] == j as usize);
        assert(reached(w, modules, kept, j));
        assert(!is_preset(presets, modules[kept[j] as int])) by {
            assert(first_references(presets, modules, all)[j] == kept[j]);
        }
        if refers_to(w, kept[j]) {
            let t = choose|t: int| 0 <= t < w.len() && (#[trigger] w[t]).type_id == MachineTypeId::Module(kept[j]);
            lemma_new_id_of_kept(presets, modules, kept, j, w1[t].type_id);
            assert(refers_to(w1, ids[j]));
        } else {
            let q = choose|q: int| 0 <= q < j && refers_to(modules[#[trigger] kept[q] as int].region.machines@, kept[j]);
            let inside = modules[kept[q] as int].region.machines@;
            let t = choose|t: int| 0 <= t < inside.len() && (#[trigger] inside[t]).type_id == MachineTypeId::Module(kept[j]);
            assert(kept_module(presets, modules, kept, q, new_modules[q]));
            lemma_new_id_of_kept(presets, modules, kept, j, new_modules[q].region.machines@[t].type_id);
            assert(ids[q] == q as usize);
            assert(refers_to(new_modules[ids[q] as int].region.machines@, ids[j]));
        }
    }
    lemma_renumbered_self(presets, modules, kept, new_modules, w, w1);
    assert forall|k: int| 0 <= k < n implies kept_module(
        presets,
        new_modules,
        ids,
        k,
        #[trigger] new_modules[k],
    ) by {
        assert(ids[k] == k as usize);
        assert(kept_module(presets, modules, kept, k, new_modules[k]));
        lemma_renumbered_self(
            presets,
            modules,
            kept,
            new_modules,
            modules[kept[k] as int].region.machines@,
            new_modules[k].region.machines@,
        );
    }
}

/// Whether every module id among `machines` is already the new id of its module.
fn ids_fixed(machines: &Vec<StatefulMachine>, ids: &Vec<Option<MachineTypeId>>) -> (r: bool)
    requires
        forall|t: int|
            0 <= t < machines@.len() ==> ((#[trigger] machines@[t]).type_id matches MachineTypeId::Module(
                i,
            ) ==> i < ids@.len()),
    ensures
        r <==> forall|t: int|
            0 <= t < machines@.len() ==> ((#[trigger] machines@[t]).type_id matches MachineTypeId::Module(
                i,
            ) ==> ids@[i as int] == Some(MachineTypeId::Module(i))),
{
    let mut t: usize = 0;
    while t < machines.len()
        invariant
            t <= machines@.len(),
            forall|u: int|
                0 <= u < machines@.len() ==> ((#[trigger] machines@[u]).type_id matches MachineTypeId::Module(
                    i,
                ) ==> i < ids@.len()),
            forall|u: int|
                0 <= u < t ==> ((#[trigger] machines@[u]).type_id matches MachineTypeId::Module(
                    i,
                ) ==> ids@[i as int] == Some(MachineTypeId::Module(i))),
        decreases machines@.len() - t,
    {
        if let MachineTypeId::Module(i) = machines[t].type_id {
            match ids[i] {
                Some(MachineTypeId::Module(k)) => {
                    if k != i {
                        return false;
                    }
                },
                _ => {
                    return false;
                },
            }
        }
        t = t + 1;
    }
    true
}

/// Whether every module id inside every module is already the new id of its module.
fn modules_fixed(types: &MachineTypes, ids: &Vec<Option<MachineTypeId>>) -> (r: bool)
    requires
        forall|m: int|
            0 <= m < types.modules@.len() ==> refs_in_range(
                (#[trigger] types.modules@[m]).region.machines@,
                ids@.len() as int,
            ),
    ensures
        r <==> forall|m: int, t: int|
            0 <= m < types.modules@.len() && 0 <= t < types.modules@[m].region.machines@.len()
                ==> ((#[trigger] types.modules@[m].region.machines@[t]).type_id matches MachineTypeId::Module(
                i,
            ) ==> ids@[i as int] == Some(MachineTypeId::Module(i))),
{
    let mut m: usize = 0;
    while m < types.modules.len()
        invariant
            m <= types.modules@.len(),
            forall|m2: int|
                0 <= m2 < types.modules@.len() ==> refs_in_range(
                    (#[trigger] types.modules@[m2]).region.machines@,
                    ids@.len() as int,
                ),
            forall|m2: int, t: int|
                0 <= m2 < m && 0 <= t < types.modules@[m2].region.machines@.len()
                    ==> ((#[trigger] types.modules@[m2].region.machines@[t]).type_id matches MachineTypeId::Module(
                    i,
                ) ==> ids@[i as int] == Some(MachineTypeId::Module(i))),
        decreases types.modules@.len() - m,
    {
        let inside = &types.modules[m].region.machines;
        assert(refs_in_range(types.modules@[m as int].region.machines@, ids@.len() as int));
        if !ids_fixed(inside, ids) {
            return false;
        }
        m = m + 1;
    }
    true
}

/// Whether the game is in canonical form: canonicalizing it keeps every module in place and
/// changes no machine.
#[verifier::spinoff_prover]
pub fn is_canonical(types: &MachineTypes, world: &PlatonicRegionContents) -> (r: bool)
    requires
        game_refs_in_range(*types, *world),
    ensures
        r <==> canonical_form(
            *types,
            *world,
            identity_ids(types.modules@.len()),
            *types,
            *world,
        ),
{
    let ghost presets = types.presets@;
    let ghost modules = types.modules@;
    let ghost w = world.machines@;
    let ghost id = identity_ids(modules.len());
    let (ids, kept) = find_kept_modules(types, world);
    let ghost scan = concat(regions_in_order(w, modules, kept@));
    assert(search_result(*types, *world, kept@));
    proof {
        lemma_first_references_distinct(presets, modules, scan);
    }
    let n = types.modules.len();
    if kept.len() != n {
        proof {
            if canonical_form(*types, *world, id, *types, *world) {
                lemma_search_result_unique(*types, *world, id, kept@);
            }
        }
        return false;
    }
    let mut k: usize = 0;
    while k < n
        invariant
            k <= n,
            kept@.len() == n,
            n == modules.len(),
            modules == types.modules@,
            id == identity_ids(modules.len()),
            search_result(*types, *world, kept@),
            forall|k2: int| 0 <= k2 < k ==> kept@[k2] == k2,
        decreases n - k,
    {
        if kept[k] != k {
            proof {
                if canonical_form(*types, *world, id, *types, *world) {
                    lemma_search_result_unique(*types, *world, id, kept@);
                    assert(id[k as int] == k);
                }
            }
            return false;
        }
        k = k + 1;
    }
    assert(kept@ =~= id);
    assert forall|t: int|
        0 <= t < w.len() implies ((#[trigger] w[t]).type_id matches MachineTypeId::Module(
            i,
        ) ==> i < ids@.len()) by {}
    if !ids_fixed(&world.machines, &ids) {
        proof {
            if canonical_form(*types, *world, id, *types, *world) {
                let t = choose|t: int|
                    0 <= t < w.len() && !((#[trigger] w[t]).type_id matches MachineTypeId::Module(
                        i,
                    ) ==> ids@[i as int] == Some(MachineTypeId::Module(i)));
                if let MachineTypeId::Module(i) = w[t].type_id {
                    assert(new_id(presets, modules, id, i as int, MachineTypeId::Module(i)));
                    let found = ids@[i as int]->0;
                    assert(new_id(presets, modules, id, i as int, found));
                    lemma_new_id_unique(presets, modules, id, i as int, found, MachineTypeId::Module(i));
                }
            }
        }
        return false;
    }
    assert(ids@.len() == modules.len());
    if !modules_fixed(types, &ids) {
        proof {
            if canonical_form(*types, *world, id, *types, *world) {
                let (m, t) = choose|m: int, t: int|
                    0 <= m < modules.len() && 0 <= t < modules[m].region.machines@.len() && !((#[trigger] modules[m].region.machines@[t]).type_id matches MachineTypeId::Module(
                        i,
                    ) ==> ids@[i as int] == Some(MachineTypeId::Module(i)));
                let ms = modules[m].region.machines@;
                assert(id[m] == m);
                assert(kept_module(presets, modules, id, m, modules[m]));
                if let MachineTypeId::Module(i) = ms[t].type_id {
                    assert(new_id(presets, modules, id, i as int, MachineTypeId::Module(i)));
                    assert(kept@[m] == m);
                    assert(ids@[i as int] is Some);
                    let found = ids@[i as int]->0;
                    assert(new_id(presets, modules, id, i as int, found));
                    lemma_new_id_unique(presets, modules, id, i as int, found, MachineTypeId::Module(i));
                }
            }
        }
        return false;
    }
    proof {
        assert(renumbered(presets, modules, id, w, w)) by {
            assert forall|t: int| 0 <= t < w.len() implies {
                &&& (#[trigger] w[t]).state == w[t].state
                &&& match w[t].type_id {
                    MachineTypeId::Preset(_) => w[t].type_id == w[t].type_id,
                    MachineTypeId::Module(i) => new_id(presets, modules, id, i as int, w[t].type_id),
                }
            } by {
                if let MachineTypeId::Module(i) = w[t].type_id {
                    assert(ids@[i as int] == Some(MachineTypeId::Module(i)));
                }
            }
        }
        assert forall|k2: int| 0 <= k2 < id.len() implies kept_module(
            presets,
            modules,
            id,
            k2,
            #[trigger] modules[k2],
        ) by {
            assert(id[k2] == k2);
            let ms = modules[k2].region.machines@;
            assert forall|t: int| 0 <= t < ms.len() implies {
                &&& (#[trigger] ms[t]).state == ms[t].state
                &&& match ms[t].type_id {
                    MachineTypeId::Preset(_) => ms[t].type_id == ms[t].type_id,
                    MachineTypeId::Module(i) => new_id(presets, modules, id, i as int, ms[t].type_id),
                }
            } by {
                if let MachineTypeId::Module(i) = ms[t].type_id {
                    assert(ids@[i as int] == Some(MachineTypeId::Module(i)));
                }
            }
        }
    }
    true
}

/// A saved game: the world, the machine types, when it last changed and the inventory just
/// before that change.
pub struct Game {
    pub global_region: PlatonicRegionContents,
    pub machine_types: MachineTypes,
    pub last_change_time: i64,
    pub inventory_before_last_change: HashMap<Material, i64>,
}

impl Game {
    /// Puts the game in canonical form (see `canonicalize`); the time and inventory stay.
    pub fn canonicalize(&mut self)
        requires
            game_refs_in_range(old(self).machine_types, old(self).global_region),
        ensures
            exists|kept: Seq<usize>|
                canonical_form(
                    old(self).machine_types,
                    old(self).global_region,
                    kept,
                    final(self).machine_types,
                    final(self).global_region,
                ),
            final(self).last_change_time == old(self).last_change_time,
            final(self).inventory_before_last_change == old(self).inventory_before_last_change,
    {
        let ghost types0 = self.machine_types;
        let ghost world0 = self.global_region;
        canonicalize(&mut self.machine_types, &mut self.global_region);
        let ghost kept = choose|kept: Seq<usize>|
            canonical_form(types0, world0, kept, self.machine_types, self.global_region);
        assert(canonical_form(types0, world0, kept, self.machine_types, self.global_region));
    }

    /// Whether the game is in canonical form (see `is_canonical`).
    pub fn is_canonical(&self) -> (r: bool)
        requires
            game_refs_in_range(self.machine_types, self.global_region),
        ensures
            r <==> canonical_form(
                self.machine_types,
                self.global_region,
                identity_ids(self.machine_types.modules@.len()),
                self.machine_types,
                self.global_region,
            ),
    {
        is_canonical(&self.machine_types, &self.global_region)
    }
}

} // verus!
