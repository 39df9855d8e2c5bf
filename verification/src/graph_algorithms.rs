use vstd::prelude::*;
use arrayvec::ArrayVec;
use crate::machine_data::{
    placed_inputs, placed_machine_fits, placed_outputs, InputLocation, MachineTypes,
    PlatonicRegionContents, StatefulMachine, MAX_COMPONENTS, MAX_MACHINE_INPUTS,
};

verus! {

/// For each machine, where each of its outputs goes: (machine index, input index), or nowhere.
pub type OutputEdges = Vec<Vec<Option<(usize, usize)>>>;

/// Output edges as mathematical values.
pub type EdgesModel = Seq<Seq<Option<(usize, usize)>>>;

/// Whether an output goes to machine `v`.
pub open spec fn targets(output: Option<(usize, usize)>, v: int) -> bool {
    output matches Some(e) && e.0 == v
}

/// How many of the outputs go to machine `v`.
pub open spec fn count_targets(outputs: Seq<Option<(usize, usize)>>, v: int) -> nat
    decreases outputs.len(),
{
    if outputs.len() == 0 {
        0
    } else {
        count_targets(outputs.drop_last(), v) + if targets(outputs.last(), v) {
            1nat
        } else {
            0nat
        }
    }
}

/// How many outputs of machines `0..upto` that are not in `done` go to machine `v`.
pub open spec fn in_degree(edges: EdgesModel, done: Seq<usize>, v: int, upto: int) -> nat
    decreases upto,
{
    if upto <= 0 {
        0
    } else {
        in_degree(edges, done, v, upto - 1) + if done.contains((upto - 1) as usize) {
            0nat
        } else {
            count_targets(edges[upto - 1], v)
        }
    }
}

/// Machine `i` has an output that goes to machine `v`.
pub open spec fn feeds(edges: EdgesModel, i: int, v: int) -> bool {
    0 <= i < edges.len() && exists|k: int| 0 <= k < edges[i].len() && #[trigger] targets(edges[i][k], v)
}

/// The edges the ordering may be given: at most `MAX_COMPONENTS` machines with at most
/// `MAX_MACHINE_INPUTS` outputs each, every output going to one of the `n` machines.
pub open spec fn edges_ok(edges: EdgesModel, n: int) -> bool {
    &&& n <= MAX_COMPONENTS
    &&& n <= edges.len() <= MAX_COMPONENTS
    &&& forall|i: int| 0 <= i < edges.len() ==> #[trigger] edges[i].len() <= MAX_MACHINE_INPUTS
    &&& forall|i: int, k: int|
        0 <= i < edges.len() && 0 <= k < edges[i].len() ==> (#[trigger] edges[i][k] matches Some(
            e,
        ) ==> e.0 < n)
}

/// `order` lists machines `0..n` without repeats, each after every machine that feeds it, and
/// leaves out exactly the machines fed by a machine it leaves out.
pub open spec fn is_noncyclic_topological_ordering(edges: EdgesModel, n: int, order: Seq<usize>) -> bool {
    &&& order.no_duplicates()
    &&& forall|j: int| 0 <= j < order.len() ==> #[trigger] order[j] < n
    &&& forall|j: int, i: int|
        0 <= j < order.len() && #[trigger] feeds(edges, i, order[j] as int) ==> order.take(
            j,
        ).contains(i as usize)
    &&& forall|v: int|
        0 <= v < n && !#[trigger] order.contains(v as usize) ==> exists|i: int|
            #[trigger] feeds(edges, i, v) && !order.contains(i as usize)
}

proof fn lemma_count_take_step(outputs: Seq<Option<(usize, usize)>>, k: int, v: int)
    requires
        0 <= k < outputs.len(),
    ensures
        count_targets(outputs.take(k + 1), v) == count_targets(outputs.take(k), v) + if targets(
            outputs[k],
            v,
        ) {
            1nat
        } else {
            0nat
        },
{
    assert(outputs.take(k + 1).drop_last() =~= outputs.take(k));
}

proof fn lemma_count_prefix(outputs: Seq<Option<(usize, usize)>>, j: int, v: int)
    requires
        0 <= j <= outputs.len(),
    ensures
        count_targets(outputs.take(j), v) <= count_targets(outputs, v),
    decreases outputs.len() - j,
{
    if j < outputs.len() {
        lemma_count_take_step(outputs, j, v);
        lemma_count_prefix(outputs, j + 1, v);
    } else {
        assert(outputs.take(j) =~= outputs);
    }
}

proof fn lemma_push_contains(s: Seq<usize>, a: usize, x: usize)
    ensures
        s.push(a).contains(x) <==> s.contains(x) || x == a,
{
    if s.push(a).contains(x) {
        let w = choose|w: int| 0 <= w < s.len() + 1 && s.push(a)[w] == x;
        if w < s.len() {
            assert(s[w] == x);
        }
    }
    if s.contains(x) {
        let w = choose|w: int| 0 <= w < s.len() && s[w] == x;
        assert(s.push(a)[w] == x);
    }
    if x == a {
        assert(s.push(a)[s.len() as int] == x);
    }
}

proof fn lemma_drop_last_contains(s: Seq<usize>, x: usize)
    requires
        s.len() > 0,
    ensures
        s.contains(x) <==> s.subrange(0, s.len() - 1).contains(x) || x == s[s.len() - 1],
{
    assert(s =~= s.subrange(0, s.len() - 1).push(s[s.len() - 1]));
    lemma_push_contains(s.subrange(0, s.len() - 1), s[s.len() - 1], x);
}

proof fn lemma_count_bounded(outputs: Seq<Option<(usize, usize)>>, v: int)
    ensures
        count_targets(outputs, v) <= outputs.len(),
    decreases outputs.len(),
{
    if outputs.len() > 0 {
        lemma_count_bounded(outputs.drop_last(), v);
    }
}

proof fn lemma_count_positive(outputs: Seq<Option<(usize, usize)>>, v: int)
    ensures
        count_targets(outputs, v) > 0 <==> exists|k: int|
            0 <= k < outputs.len() && #[trigger] targets(outputs[k], v),
    decreases outputs.len(),
{
    if outputs.len() > 0 {
        let rest = outputs.drop_last();
        lemma_count_positive(rest, v);
        if count_targets(outputs, v) > 0 {
            if count_targets(rest, v) > 0 {
                let k = choose|k: int| 0 <= k < rest.len() && #[trigger] targets(rest[k], v);
                assert(targets(outputs[k], v));
            } else {
                assert(targets(outputs[outputs.len() - 1], v));
            }
        } else {
            assert forall|k: int| 0 <= k < outputs.len() implies !#[trigger] targets(
                outputs[k],
                v,
            ) by {
                if k < rest.len() {
                    assert(rest[k] == outputs[k]);
                }
            }
        }
    }
}

proof fn lemma_in_degree_bounded(edges: EdgesModel, done: Seq<usize>, v: int, upto: int)
    requires
        upto <= edges.len(),
        forall|i: int| 0 <= i < edges.len() ==> #[trigger] edges[i].len() <= MAX_MACHINE_INPUTS,
    ensures
        in_degree(edges, done, v, upto) <= MAX_MACHINE_INPUTS * (if upto < 0 {
            0
        } else {
            upto
        }),
    decreases upto,
{
    if upto > 0 {
        lemma_in_degree_bounded(edges, done, v, upto - 1);
        lemma_count_bounded(edges[upto - 1], v);
    }
}

proof fn lemma_in_degree_done_push(edges: EdgesModel, done: Seq<usize>, s: usize, v: int, upto: int)
    requires
        !done.contains(s),
        upto <= edges.len(),
        upto <= MAX_COMPONENTS,
    ensures
        in_degree(edges, done.push(s), v, upto) + if 0 <= s < upto {
            count_targets(edges[s as int], v)
        } else {
            0
        } == in_degree(edges, done, v, upto),
    decreases upto,
{
    if upto > 0 {
        lemma_in_degree_done_push(edges, done, s, v, upto - 1);
        lemma_push_contains(done, s, (upto - 1) as usize);
        assert(((upto - 1) as usize) as int == upto - 1);
        if s as int == upto - 1 {
            assert(done.push(s).contains((upto - 1) as usize));
        }
    }
}

proof fn lemma_in_degree_zero(edges: EdgesModel, done: Seq<usize>, v: int, upto: int)
    requires
        upto <= edges.len(),
    ensures
        in_degree(edges, done, v, upto) == 0 <==> forall|i: int|
            0 <= i < upto && !done.contains(i as usize) ==> #[trigger] count_targets(edges[i], v)
                == 0,
    decreases upto,
{
    if upto > 0 {
        lemma_in_degree_zero(edges, done, v, upto - 1);
    }
}

proof fn lemma_distinct_below_n_is_short(s: Seq<usize>, n: int)
    requires
        s.no_duplicates(),
        forall|j: int| 0 <= j < s.len() ==> #[trigger] s[j] < n,
        n >= 0,
    ensures
        s.len() <= n,
{
    let m = s.map_values(|x: usize| x as int);
    s.lemma_no_duplicates_injective(|x: usize| x as int);
    m.unique_seq_to_set();
    assert forall|x: int| m.to_set().contains(x) implies vstd::set_lib::set_int_range(0, n).contains(
        x,
    ) by {
        let j = choose|j: int| 0 <= j < m.len() && m[j] == x;
        assert(s[j] < n);
    }
    vstd::set_lib::lemma_int_range(0, n);
    vstd::set_lib::lemma_len_subset(m.to_set(), vstd::set_lib::set_int_range(0, n));
}

/// `arrayvec::ArrayVec`, a vector with a fixed capacity held inline.
#[verifier::external_type_specification]
#[verifier::external_body]
#[verifier::reject_recursive_types(T)]
pub struct ExArrayVec<T, const CAP: usize>(ArrayVec<T, CAP>);

/// The items of a count vector, in order.
pub uninterp spec fn counts_of(v: ArrayVec<usize, MAX_COMPONENTS>) -> Seq<usize>;

/// `ArrayVec::new`: an empty vector.
#[verifier::external_body]
fn new_counts() -> (r: ArrayVec<usize, MAX_COMPONENTS>)
    ensures
        counts_of(r) == Seq::<usize>::empty(),
{
    ArrayVec::new()
}

/// `ArrayVec::push`: appends `x`; it panics on a full vector, which `requires` rules out.
#[verifier::external_body]
fn push_count(v: &mut ArrayVec<usize, MAX_COMPONENTS>, x: usize)
    requires
        counts_of(*old(v)).len() < MAX_COMPONENTS,
    ensures
        counts_of(*final(v)) == counts_of(*old(v)).push(x),
{
    v.push(x)
}

/// Reading item `i` through `ArrayVec`'s `Deref` to the slice of its items.
#[verifier::external_body]
fn count_at(v: &ArrayVec<usize, MAX_COMPONENTS>, i: usize) -> (r: usize)
    requires
        i < counts_of(*v).len(),
    ensures
        r == counts_of(*v)[i as int],
{
    v[i]
}

/// Writing item `i` through `ArrayVec`'s `DerefMut` to the slice of its items.
#[verifier::external_body]
fn set_count(v: &mut ArrayVec<usize, MAX_COMPONENTS>, i: usize, x: usize)
    requires
        i < counts_of(*old(v)).len(),
    ensures
        counts_of(*final(v)) == counts_of(*old(v)).update(i as int, x),
{
    v[i] = x;
}

impl PlatonicRegionContents {
    /// The machines that are not fed, directly or indirectly, by a cycle, in an order where
    /// every machine comes after all the machines that feed it.
    pub fn topological_ordering_of_noncyclic_machines(&self, output_edges: &OutputEdges) -> (r:
        Vec<usize>)
        requires
            self.machines@.len() <= MAX_COMPONENTS,
            edges_ok(output_edges@.map_values(|o: Vec<Option<(usize, usize)>>| o@), self.machines@.len() as int),
        ensures
            is_noncyclic_topological_ordering(
                output_edges@.map_values(|o: Vec<Option<(usize, usize)>>| o@),
                self.machines@.len() as int,
                r@,
            ),
    {
        let ghost edges = output_edges@.map_values(|o: Vec<Option<(usize, usize)>>| o@);
        let n = self.machines.len();
        let total = output_edges.len();
        let mut num_inputs = new_counts();
        let mut v: usize = 0;
        while v < n
            invariant
                v <= n,
                n <= MAX_COMPONENTS,
                counts_of(num_inputs).len() == v,
                forall|w: int| 0 <= w < v ==> #[trigger] counts_of(num_inputs)[w] == 0,
            decreases n - v,
        {
            push_count(&mut num_inputs, 0);
            v = v + 1;
        }
        let mut i: usize = 0;
        while i < total
            invariant
                edges == output_edges@.map_values(|o: Vec<Option<(usize, usize)>>| o@),
                edges_ok(edges, n as int),
                total == edges.len(),
                i <= total,
                counts_of(num_inputs).len() == n,
                forall|w: int|
                    0 <= w < n ==> #[trigger] counts_of(num_inputs)[w] == in_degree(
                        edges,
                        Seq::<usize>::empty(),
                        w,
                        i as int,
                    ),
            decreases total - i,
        {
            let outputs = &output_edges[i];
            assert(outputs@ == edges[i as int]);
            let mut k: usize = 0;
            while k < outputs.len()
                invariant
                    edges == output_edges@.map_values(|o: Vec<Option<(usize, usize)>>| o@),
                    edges_ok(edges, n as int),
                    total == edges.len(),
                    i < total,
                    outputs@ == edges[i as int],
                    k <= outputs.len(),
                    counts_of(num_inputs).len() == n,
                    forall|w: int|
                        0 <= w < n ==> #[trigger] counts_of(num_inputs)[w] == in_degree(
                            edges,
                            Seq::<usize>::empty(),
                            w,
                            i as int,
                        ) + count_targets(outputs@.take(k as int), w),
                decreases outputs.len() - k,
            {
                proof {
                    assert forall|w: int| 0 <= w < n implies #[trigger] count_targets(
                        outputs@.take(k as int + 1),
                        w,
                    ) == count_targets(outputs@.take(k as int), w) + if targets(outputs@[k as int], w) {
                        1nat
                    } else {
                        0nat
                    } by {
                        lemma_count_take_step(outputs@, k as int, w);
                    }
                }
                if let Some(output) = outputs[k] {
                    proof {
                        assert(output.0 < n);
                        lemma_in_degree_bounded(edges, Seq::<usize>::empty(), output.0 as int, i as int);
                        lemma_count_bounded(outputs@.take(k as int), output.0 as int);
                    }
                    let c = count_at(&num_inputs, output.0);
                    set_count(&mut num_inputs, output.0, c + 1);
                }
                k = k + 1;
            }
            proof {
                assert(outputs@.take(outputs@.len() as int) =~= outputs@);
            }
            i = i + 1;
        }
        let mut starting_points: Vec<usize> = Vec::new();
        let mut index: usize = 0;
        while index < n
            invariant
                index <= n,
                counts_of(num_inputs).len() == n,
                starting_points@.no_duplicates(),
                forall|j: int|
                    0 <= j < starting_points.len() ==> #[trigger] starting_points[j] < index
                        && counts_of(num_inputs)[starting_points[j] as int] == 0,
                forall|w: int|
                    0 <= w < index && #[trigger] counts_of(num_inputs)[w] == 0 ==> starting_points@.contains(
                        w as usize,
                    ),
            decreases n - index,
        {
            if count_at(&num_inputs, index) == 0 {
                let ghost queued_before = starting_points@;
                starting_points.push(index);
                proof {
                    assert forall|x: usize| #[trigger] starting_points@.contains(x)
                        <==> queued_before.contains(x) || x == index by {
                        lemma_push_contains(queued_before, index, x);
                    }
                }
            }
            index = index + 1;
        }
        let mut result: Vec<usize> = Vec::new();
        proof {
            assert forall|w: int| 0 <= w < n implies #[trigger] counts_of(num_inputs)[w] == in_degree(
                edges,
                result@,
                w,
                total as int,
            ) by {
                assert(result@ =~= Seq::<usize>::empty());
            }
            assert forall|w: int| 0 <= w < n implies (#[trigger] counts_of(num_inputs)[w] == 0 <==> (
            result@.contains(w as usize) || starting_points@.contains(w as usize))) by {
                if starting_points@.contains(w as usize) {
                    let j = choose|j: int|
                        0 <= j < starting_points.len() && starting_points[j] == w as usize;
                    assert(counts_of(num_inputs)[starting_points[j] as int] == 0);
                }
            }
        }
        while starting_points.len() > 0
            invariant
                edges == output_edges@.map_values(|o: Vec<Option<(usize, usize)>>| o@),
                edges_ok(edges, n as int),
                total == edges.len(),
                counts_of(num_inputs).len() == n,
                result@.no_duplicates(),
                starting_points@.no_duplicates(),
                forall|x: usize| !(result@.contains(x) && starting_points@.contains(x)),
                forall|j: int| 0 <= j < result.len() ==> #[trigger] result[j] < n,
                forall|j: int| 0 <= j < starting_points.len() ==> #[trigger] starting_points[j] < n,
                forall|w: int|
                    0 <= w < n ==> #[trigger] counts_of(num_inputs)[w] == in_degree(
                        edges,
                        result@,
                        w,
                        total as int,
                    ),
                forall|w: int|
                    0 <= w < n ==> (#[trigger] counts_of(num_inputs)[w] == 0 <==> (result@.contains(w as usize)
                        || starting_points@.contains(w as usize))),
                forall|j: int, i: int|
                    0 <= j < result.len() && #[trigger] feeds(edges, i, result[j] as int)
                        ==> result@.take(j).contains(i as usize),
                result.len() <= n,
            decreases n - result.len(),
        {
            let ghost queued = starting_points@;
            let starting_point = starting_points.pop().unwrap();
            let ghost before = result@;
            proof {
                assert(queued.contains(starting_point)) by {
                    assert(queued[queued.len() - 1] == starting_point);
                }
                assert forall|x: usize| #[trigger] queued.contains(x) <==> starting_points@.contains(
                    x,
                ) || x == starting_point by {
                    lemma_drop_last_contains(queued, x);
                }
                assert(!starting_points@.contains(starting_point)) by {
                    if starting_points@.contains(starting_point) {
                        let j = choose|j: int|
                            0 <= j < starting_points.len() && starting_points@[j] == starting_point;
                        assert(queued[j] == queued[queued.len() - 1]);
                    }
                }
                assert(counts_of(num_inputs)[starting_point as int] == 0);
                // everything feeding the machine has already been placed
                lemma_in_degree_zero(edges, before, starting_point as int, total as int);
                assert forall|i: int| #[trigger]
                    feeds(edges, i, starting_point as int) implies before.contains(i as usize) by {
                    lemma_count_positive(edges[i], starting_point as int);
                }
            }
            result.push(starting_point);
            proof {
                assert(result@.take(before.len() as int) =~= before);
                assert forall|x: usize| #[trigger] result@.contains(x) <==> before.contains(x) || x
                    == starting_point by {
                    lemma_push_contains(before, starting_point, x);
                }
                assert forall|j: int, i: int|
                    0 <= j < result.len() && #[trigger] feeds(edges, i, result[j] as int)
                        implies result@.take(j).contains(i as usize) by {
                    if j < before.len() {
                        assert(result@.take(j) =~= before.take(j));
                    }
                }
                assert forall|w: int| 0 <= w < n implies #[trigger] counts_of(num_inputs)[w] == in_degree(
                    edges,
                    result@,
                    w,
                    total as int,
                ) + count_targets(edges[starting_point as int], w) by {
                    lemma_in_degree_done_push(edges, before, starting_point, w, total as int);
                }
                lemma_distinct_below_n_is_short(result@, n as int);
            }
            let outputs = &output_edges[starting_point];
            assert(outputs@ == edges[starting_point as int]);
            proof {
                assert(outputs@.take(0) =~= Seq::<Option<(usize, usize)>>::empty());
            }
            let mut k: usize = 0;
            while k < outputs.len()
                invariant
                    edges == output_edges@.map_values(|o: Vec<Option<(usize, usize)>>| o@),
                    edges_ok(edges, n as int),
                    total == edges.len(),
                    starting_point < n,
                    outputs@ == edges[starting_point as int],
                    k <= outputs.len(),
                    counts_of(num_inputs).len() == n,
                    result@.no_duplicates(),
                    result.len() <= n,
                    starting_points@.no_duplicates(),
                    forall|x: usize| !(result@.contains(x) && starting_points@.contains(x)),
                    forall|j: int| 0 <= j < result.len() ==> #[trigger] result[j] < n,
                    forall|j: int|
                        0 <= j < starting_points.len() ==> #[trigger] starting_points[j] < n,
                    forall|w: int|
                        0 <= w < n ==> #[trigger] counts_of(num_inputs)[w] + count_targets(
                            outputs@.take(k as int),
                            w,
                        ) == in_degree(edges, result@, w, total as int) + count_targets(outputs@, w),
                    forall|w: int|
                        0 <= w < n ==> (#[trigger] counts_of(num_inputs)[w] == 0 <==> (result@.contains(
                            w as usize,
                        ) || starting_points@.contains(w as usize))),
                    forall|j: int, i: int|
                        0 <= j < result.len() && #[trigger] feeds(edges, i, result[j] as int)
                            ==> result@.take(j).contains(i as usize),
                decreases outputs.len() - k,
            {
                proof {
                    assert forall|w: int| 0 <= w < n implies #[trigger] count_targets(
                        outputs@.take(k as int + 1),
                        w,
                    ) == count_targets(outputs@.take(k as int), w) + if targets(outputs@[k as int], w) {
                        1nat
                    } else {
                        0nat
                    } by {
                        lemma_count_take_step(outputs@, k as int, w);
                    }
                }
                if let Some((machine, _input)) = outputs[k] {
                    proof {
                        assert(machine < n);
                        lemma_count_prefix(outputs@, k as int + 1, machine as int);
                        assert(counts_of(num_inputs)[machine as int] >= 1);
                    }
                    let c = count_at(&num_inputs, machine);
                    set_count(&mut num_inputs, machine, c - 1);
                    if count_at(&num_inputs, machine) == 0 {
                        let ghost queued_before = starting_points@;
                        starting_points.push(machine);
                        proof {
                            assert forall|x: usize| #[trigger] starting_points@.contains(x)
                                <==> queued_before.contains(x) || x == machine by {
                                lemma_push_contains(queued_before, machine, x);
                            }
                        }
                    }
                }
                k = k + 1;
            }
            proof {
                assert(outputs@.take(outputs@.len() as int) =~= outputs@);
            }
        }
        proof {
            assert forall|v: int|
                0 <= v < n && !#[trigger] result@.contains(v as usize) implies exists|i: int|
                #[trigger] feeds(edges, i, v) && !result@.contains(i as usize) by {
                assert(counts_of(num_inputs)[v] != 0);
                lemma_in_degree_zero(edges, result@, v, total as int);
                let i = choose|i: int|
                    0 <= i < total && !result@.contains(i as usize) && #[trigger] count_targets(
                        edges[i],
                        v,
                    ) != 0;
                lemma_count_positive(edges[i], v);
                assert(feeds(edges, i, v));
            }
        }
        result
    }
}

/// Input `b` of machine `a` sits at `target`.
pub open spec fn input_at(
    inputs: Seq<Seq<InputLocation>>,
    a: int,
    b: int,
    target: InputLocation,
) -> bool {
    0 <= a < inputs.len() && 0 <= b < inputs[a].len() && inputs[a][b] == target
}

/// `edge` is the first input, by machine and then by input, that sits at `target`; or nothing,
/// where no input does.
pub open spec fn first_input_at(
    inputs: Seq<Seq<InputLocation>>,
    target: InputLocation,
    edge: Option<(usize, usize)>,
) -> bool {
    match edge {
        Some(e) => {
            &&& input_at(inputs, e.0 as int, e.1 as int, target)
            &&& forall|a: int, b: int|
                #[trigger] input_at(inputs, a, b, target) ==> a > e.0 || (a == e.0 && b >= e.1)
        },
        None => forall|a: int, b: int| !#[trigger] input_at(inputs, a, b, target),
    }
}

/// The input locations of each machine of a region.
pub open spec fn region_inputs(types: MachineTypes, machines: Seq<StatefulMachine>) -> Seq<
    Seq<InputLocation>,
> {
    Seq::new(machines.len(), |i: int| placed_inputs(types, machines[i]))
}

/// `edges` is what `output_edges` gives for the machines of a region: for each output of each
/// machine, the first input at its location.
pub open spec fn edges_of_region(
    types: MachineTypes,
    machines: Seq<StatefulMachine>,
    edges: EdgesModel,
) -> bool {
    &&& edges.len() == machines.len()
    &&& forall|i: int|
        0 <= i < edges.len() ==> (#[trigger] edges[i]).len() == placed_outputs(
            types,
            machines[i],
        ).len()
    &&& forall|i: int, k: int|
        0 <= i < edges.len() && 0 <= k < edges[i].len() ==> first_input_at(
            region_inputs(types, machines),
            placed_outputs(types, machines[i])[k],
            #[trigger] edges[i][k],
        )
    &&& edges_ok(edges, machines.len() as int)
}

/// The machines of a region fit the output edges computation: few enough of them, every type
/// id in range, every location placeable, and no type with too many outputs.
pub open spec fn region_fits(types: MachineTypes, machines: Seq<StatefulMachine>) -> bool {
    &&& machines.len() <= MAX_COMPONENTS
    &&& forall|i: int| 0 <= i < machines.len() ==> placed_machine_fits(types, #[trigger] machines[i])
    &&& forall|i: int|
        0 <= i < machines.len() ==> placed_outputs(types, #[trigger] machines[i]).len()
            <= MAX_MACHINE_INPUTS
}

fn find_input_at(inputs: &Vec<Vec<InputLocation>>, target: InputLocation) -> (r: Option<
    (usize, usize),
>)
    ensures
        first_input_at(inputs@.map_values(|v: Vec<InputLocation>| v@), target, r),
{
    let ghost model = inputs@.map_values(|v: Vec<InputLocation>| v@);
    let mut a: usize = 0;
    while a < inputs.len()
        invariant
            a <= inputs.len(),
            model == inputs@.map_values(|v: Vec<InputLocation>| v@),
            forall|a2: int, b2: int| #[trigger] input_at(model, a2, b2, target) ==> a2 >= a,
        decreases inputs.len() - a,
    {
        let row = &inputs[a];
        assert(model[a as int] == row@);
        let mut b: usize = 0;
        while b < row.len()
            invariant
                a < inputs.len(),
                b <= row.len(),
                model == inputs@.map_values(|v: Vec<InputLocation>| v@),
                model[a as int] == row@,
                forall|a2: int, b2: int|
                    #[trigger] input_at(model, a2, b2, target) ==> a2 > a || (a2 == a && b2 >= b),
            decreases row.len() - b,
        {
            if row[b] == target {
                return Some((a, b));
            }
            b = b + 1;
        }
        a = a + 1;
    }
    None
}

impl PlatonicRegionContents {
    /// For each machine, where each of its outputs leads: the first machine input, by machine
    /// and then by input, at the output's location; nowhere where no input is there.
    pub fn output_edges(&self, machine_types: &MachineTypes) -> (r: OutputEdges)
        requires
            region_fits(*machine_types, self.machines@),
        ensures
            r@.len() == self.machines@.len(),
            forall|i: int|
                0 <= i < r@.len() ==> (#[trigger] r@[i])@.len() == placed_outputs(
                    *machine_types,
                    self.machines@[i],
                ).len(),
            forall|i: int, k: int|
                0 <= i < r@.len() && 0 <= k < r@[i]@.len() ==> first_input_at(
                    region_inputs(*machine_types, self.machines@),
                    placed_outputs(*machine_types, self.machines@[i])[k],
                    #[trigger] r@[i]@[k],
                ),
            edges_ok(r@.map_values(|o: Vec<Option<(usize, usize)>>| o@), self.machines@.len() as int),
            edges_of_region(
                *machine_types,
                self.machines@,
                r@.map_values(|o: Vec<Option<(usize, usize)>>| o@),
            ),
    {
        let ghost regions = region_inputs(*machine_types, self.machines@);
        let mut inputs: Vec<Vec<InputLocation>> = Vec::new();
        let mut i: usize = 0;
        while i < self.machines.len()
            invariant
                i <= self.machines.len(),
                inputs@.len() == i,
                region_fits(*machine_types, self.machines@),
                regions == region_inputs(*machine_types, self.machines@),
                forall|j: int| 0 <= j < i ==> (#[trigger] inputs@[j])@ == regions[j],
            decreases self.machines.len() - i,
        {
            let placed = machine_types.input_locations(&self.machines[i]);
            inputs.push(placed);
            i = i + 1;
        }
        assert(inputs@.map_values(|v: Vec<InputLocation>| v@) =~= regions);
        let mut result: OutputEdges = Vec::new();
        let mut i: usize = 0;
        while i < self.machines.len()
            invariant
                i <= self.machines.len(),
                result@.len() == i,
                region_fits(*machine_types, self.machines@),
                regions == region_inputs(*machine_types, self.machines@),
                inputs@.map_values(|v: Vec<InputLocation>| v@) == regions,
                forall|j: int|
                    0 <= j < i ==> (#[trigger] result@[j])@.len() == placed_outputs(
                        *machine_types,
                        self.machines@[j],
                    ).len(),
                forall|j: int, k: int|
                    0 <= j < i && 0 <= k < result@[j]@.len() ==> first_input_at(
                        regions,
                        placed_outputs(*machine_types, self.machines@[j])[k],
                        #[trigger] result@[j]@[k],
                    ),
            decreases self.machines.len() - i,
        {
            let outputs = machine_types.output_locations(&self.machines[i]);
            let mut edges: Vec<Option<(usize, usize)>> = Vec::new();
            let mut k: usize = 0;
            while k < outputs.len()
                invariant
                    k <= outputs.len(),
                    edges@.len() == k,
                    inputs@.map_values(|v: Vec<InputLocation>| v@) == regions,
                    forall|k2: int|
                        0 <= k2 < k ==> first_input_at(
                            regions,
                            outputs@[k2],
                            #[trigger] edges@[k2],
                        ),
                decreases outputs.len() - k,
            {
                let edge = find_input_at(&inputs, outputs[k]);
                edges.push(edge);
                k = k + 1;
            }
            result.push(edges);
            i = i + 1;
        }
        proof {
            let n = self.machines@.len() as int;
            let model = result@.map_values(|o: Vec<Option<(usize, usize)>>| o@);
            assert forall|j: int, k: int|
                0 <= j < model.len() && 0 <= k < model[j].len() implies (#[trigger] model[j][k] matches Some(
                e,
            ) ==> e.0 < n) by {
                assert(model[j][k] == result@[j]@[k]);
                assert(first_input_at(
                    regions,
                    placed_outputs(*machine_types, self.machines@[j])[k],
                    result@[j]@[k],
                ));
            }
            assert forall|j: int| 0 <= j < model.len() implies #[trigger] model[j].len()
                <= MAX_MACHINE_INPUTS by {
                assert(model[j] == result@[j]@);
            }
        }
        result
    }
}

} // verus!
