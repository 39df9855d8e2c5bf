use vstd::prelude::*;
use crate::deck_geometry::{
    cast_coordinates, in_i32, tile_coordinates, tile_index, tile_query_ok, BoundsModel, Facing,
    Grid, GridVector, Rotation,
};
use crate::deck_laws::lemma_row_major_split;
use crate::deck_mechanisms::{Conveyor, ConveyorSide, Deck};
use crate::geometry::rotate_point;

verus! {

/// What the conveyor-building rules read of the mechanism on a tile: which kind it is, and
/// for a conveyor, what each of its sides does.
#[derive(Copy, Clone, PartialEq, Debug)]
pub enum MechanismKind {
    Deck(Deck),
    Conveyor(Conveyor),
    Tower,
}

/// Whether material may be taken from a mechanism on the side `facing`: always from the deck,
/// from a conveyor on any side that is not an input, never from a tower.
pub open spec fn is_material_source(kind: MechanismKind, facing: int) -> bool {
    match kind {
        MechanismKind::Deck(_) => true,
        MechanismKind::Conveyor(c) => c.sides@[facing] != ConveyorSide::Input,
        MechanismKind::Tower => false,
    }
}

impl MechanismKind {
    pub fn can_be_material_source(&self, facing: Facing) -> (r: bool)
        requires
            facing@ < 4,
        ensures
            r == is_material_source(*self, facing@),
    {
        match self {
            MechanismKind::Deck(d) => d.can_be_material_source(facing),
            MechanismKind::Conveyor(c) => c.can_be_material_source(facing),
            MechanismKind::Tower => false,
        }
    }
}

/// The tile center one tile (`TILE_WIDTH`, two units) away from `p` along `facing`.
pub open spec fn neighbor(p: (int, int), facing: int) -> (int, int) {
    let u = rotate_point((1, 0), facing);
    (p.0 + 2 * u.0, p.1 + 2 * u.1)
}

/// The tile center one tile away from `p` against `facing`.
pub open spec fn behind(p: (int, int), facing: int) -> (int, int) {
    let u = rotate_point((1, 0), facing);
    (p.0 - 2 * u.0, p.1 - 2 * u.1)
}

/// A place where a new conveyor could go: its tile, and the side from which it takes material.
#[derive(Copy, Clone, PartialEq, Eq, Debug, Structural)]
pub struct BuildConveyorCandidate {
    pub position: GridVector,
    pub input_side: Facing,
}

impl View for BuildConveyorCandidate {
    /// (tile center, input side)
    type V = ((int, int), int);

    open spec fn view(&self) -> ((int, int), int) {
        (self.position@, self.input_side@)
    }
}

impl BuildConveyorCandidate {
    /// The tile the new conveyor takes material from.
    pub fn input_position(&self) -> (r: GridVector)
        requires
            self.input_side@ < 4,
            in_i32(neighbor(self.position@, self.input_side@).0),
            in_i32(neighbor(self.position@, self.input_side@).1),
        ensures
            r@ == neighbor(self.position@, self.input_side@),
    {
        let u = self.input_side.unit_vector();
        GridVector(self.position.0 + 2 * u.0, self.position.1 + 2 * u.1)
    }

    /// The side of the input tile's mechanism that faces the new conveyor.
    pub fn output_side(&self) -> (r: Facing)
        requires
            self.input_side@ < 4,
        ensures
            r@ == (self.input_side@ + 2) % 4,
    {
        let u_turn = Rotation::new(2);
        proof {
            self.input_side.lemma_add_spec(u_turn);
        }
        self.input_side + u_turn
    }
}

/// The mechanism on the tile at `p`, if the tile lies in the grid and holds one.
pub open spec fn mechanism_at(bounds: BoundsModel, tiles: Seq<Option<MechanismKind>>, p: (int, int)) -> Option<
    MechanismKind,
> {
    match tile_index(bounds, p) {
        Some(i) => if 0 <= i < tiles.len() {
            tiles[i]
        } else {
            None
        },
        None => None,
    }
}

/// Some side of the conveyor is an output.
pub open spec fn has_output(c: Conveyor) -> bool {
    exists|i: int| 0 <= i < 4 && c.sides@[i] == ConveyorSide::Output
}

/// A new conveyor may go on the tile at `position`, taking material from `input_side`, when
/// the tile lies in the grid; the tile on the input side holds a mechanism that gives material
/// towards it (and, unless splitting is allowed, that is not a conveyor which already has an
/// output); and the tile is either empty or holds a conveyor whose side towards the input is
/// unused.
pub open spec fn candidate_valid_spec(
    bounds: BoundsModel,
    tiles: Seq<Option<MechanismKind>>,
    candidate: ((int, int), int),
    allow_splitting: bool,
) -> bool {
    let (position, side) = candidate;
    &&& tile_index(bounds, position) is Some
    &&& mechanism_at(bounds, tiles, neighbor(position, side)) matches Some(input) && {
        &&& is_material_source(input, (side + 2) % 4)
        &&& !allow_splitting ==> !(input matches MechanismKind::Conveyor(c) && has_output(c))
    }
    &&& mechanism_at(bounds, tiles, position) matches Some(existing) ==> (existing matches MechanismKind::Conveyor(c)
        && c.sides@[side] == ConveyorSide::Disconnected)
}

/// The tile at `p` and its four neighbors can be looked up in a grid with these bounds.
pub open spec fn surroundings_queryable(bounds: BoundsModel, p: (int, int)) -> bool {
    &&& tile_query_ok(bounds, p)
    &&& forall|f: int|
        0 <= f < 4 ==> {
            &&& in_i32((#[trigger] neighbor(p, f)).0)
            &&& in_i32(neighbor(p, f).1)
            &&& tile_query_ok(bounds, neighbor(p, f))
        }
}

fn mechanism_at_exec(grid: &Grid<Option<MechanismKind>>, position: GridVector) -> (r: Option<
    MechanismKind,
>)
    requires
        tile_query_ok(grid.bounds_model(), position@),
    ensures
        r == mechanism_at(grid.bounds_model(), grid.tiles_model(), position@),
{
    match grid.get(position) {
        Some(tile) => *tile,
        None => None,
    }
}

fn conveyor_has_output(c: &Conveyor) -> (r: bool)
    ensures
        r == has_output(*c),
{
    let mut k: usize = 0;
    while k < 4
        invariant
            k <= 4,
            forall|i: int| 0 <= i < k ==> c.sides@[i] != ConveyorSide::Output,
        decreases 4 - k,
    {
        if c.sides[k] == ConveyorSide::Output {
            return true;
        }
        k = k + 1;
    }
    false
}

/// Whether a new conveyor may go where `candidate` says (see `candidate_valid_spec`).
pub fn candidate_valid(
    grid: &Grid<Option<MechanismKind>>,
    candidate: BuildConveyorCandidate,
    allow_splitting: bool,
) -> (r: bool)
    requires
        candidate.input_side@ < 4,
        tile_query_ok(grid.bounds_model(), candidate.position@),
        in_i32(neighbor(candidate.position@, candidate.input_side@).0),
        in_i32(neighbor(candidate.position@, candidate.input_side@).1),
        tile_query_ok(grid.bounds_model(), neighbor(candidate.position@, candidate.input_side@)),
    ensures
        r == candidate_valid_spec(grid.bounds_model(), grid.tiles_model(), candidate@, allow_splitting),
        mechanism_at(grid.bounds_model(), grid.tiles_model(), candidate.position@) matches Some(m)
            && !(m is Conveyor) ==> !r,
{
    proof {
        law_only_conveyors_are_built_over(
            grid.bounds_model(),
            grid.tiles_model(),
            candidate@,
            allow_splitting,
        );
    }
    grid.check_tile_count();
    if grid.get(candidate.position).is_none() {
        return false;
    }
    let output_mechanism = mechanism_at_exec(grid, candidate.position);
    let input_mechanism = match mechanism_at_exec(grid, candidate.input_position()) {
        Some(m) => m,
        None => {
            return false;
        },
    };
    if !input_mechanism.can_be_material_source(candidate.output_side()) {
        return false;
    }
    if !allow_splitting {
        if let MechanismKind::Conveyor(conveyor) = input_mechanism {
            if conveyor_has_output(&conveyor) {
                return false;
            }
        }
    }
    if let Some(existing) = output_mechanism {
        match existing {
            MechanismKind::Conveyor(conveyor) => {
                if conveyor.sides[candidate.input_side.as_index()] != ConveyorSide::Disconnected {
                    return false;
                }
            },
            _ => {
                return false;
            },
        }
    }
    true
}

/// The places considered for a new conveyor around the player's tile `p`, by position `k`:
/// for each facing in turn, the player's tile taking material from that side, then the tile
/// behind the player on that side taking material from the player's tile.
pub open spec fn considered_candidate(p: (int, int), k: int) -> ((int, int), int) {
    let f = k / 2;
    if k % 2 == 0 {
        (p, f)
    } else {
        (behind(p, f), f)
    }
}

/// A conveyor can be built on side `f` of the player's tile `p`: on the tile itself taking
/// material from side `f`, or on the tile behind it on that side taking material from it.
pub open spec fn valid_on_side(
    bounds: BoundsModel,
    tiles: Seq<Option<MechanismKind>>,
    p: (int, int),
    f: int,
    allow_splitting: bool,
) -> bool {
    candidate_valid_spec(bounds, tiles, (p, f), allow_splitting) || candidate_valid_spec(
        bounds,
        tiles,
        (behind(p, f), f),
        allow_splitting,
    )
}

/// The valid places among the first `k` considered, in order.
pub open spec fn valid_candidates(
    bounds: BoundsModel,
    tiles: Seq<Option<MechanismKind>>,
    p: (int, int),
    allow_splitting: bool,
    k: nat,
) -> Seq<((int, int), int)>
    decreases k,
{
    if k == 0 {
        Seq::empty()
    } else {
        let before = valid_candidates(bounds, tiles, p, allow_splitting, (k - 1) as nat);
        let c = considered_candidate(p, k - 1);
        if candidate_valid_spec(bounds, tiles, c, allow_splitting) {
            before.push(c)
        } else {
            before
        }
    }
}

/// The sides of a newly built conveyor: an input on `side`, nothing elsewhere.
pub open spec fn new_conveyor_sides(side: int) -> Seq<ConveyorSide> {
    Seq::new(4, |i: int| if i == side { ConveyorSide::Input } else { ConveyorSide::Disconnected })
}

proof fn lemma_behind_is_opposite_neighbor(p: (int, int), f: int)
    requires
        0 <= f < 4,
    ensures
        behind(p, f) == neighbor(p, (f + 2) % 4),
        neighbor(behind(p, f), f) == p,
{
}

fn with_side(sides: [ConveyorSide; 4], k: usize, value: ConveyorSide) -> (r: [ConveyorSide; 4])
    requires
        k < 4,
    ensures
        r@ == sides@.update(k as int, value),
{
    let r = if k == 0 {
        [value, sides[1], sides[2], sides[3]]
    } else if k == 1 {
        [sides[0], value, sides[2], sides[3]]
    } else if k == 2 {
        [sides[0], sides[1], value, sides[3]]
    } else {
        [sides[0], sides[1], sides[2], value]
    };
    assert(r@ =~= sides@.update(k as int, value));
    r
}

/// The card action that builds a conveyor next to the player.
#[derive(Copy, Clone, PartialEq, Eq, Debug, Structural)]
pub struct BuildConveyor {
    pub allow_splitting: bool,
}

impl BuildConveyor {
    /// The places around the player's tile where a new conveyor may go, in the order they are
    /// considered; which of them is built depends on the player's exact position in the tile.
    pub fn valid_targets(&self, grid: &Grid<Option<MechanismKind>>, player_tile: GridVector) -> (r:
        Vec<BuildConveyorCandidate>)
        requires
            surroundings_queryable(grid.bounds_model(), player_tile@),
        ensures
            r@.map_values(|c: BuildConveyorCandidate| c@) == valid_candidates(
                grid.bounds_model(),
                grid.tiles_model(),
                player_tile@,
                self.allow_splitting,
                8,
            ),
            forall|f: int|
                0 <= f < 4 && #[trigger] candidate_valid_spec(
                    grid.bounds_model(),
                    grid.tiles_model(),
                    (player_tile@, f),
                    self.allow_splitting,
                ) ==> r@.map_values(|c: BuildConveyorCandidate| c@).contains((player_tile@, f)),
            forall|f: int|
                0 <= f < 4 && #[trigger] candidate_valid_spec(
                    grid.bounds_model(),
                    grid.tiles_model(),
                    (behind(player_tile@, f), f),
                    self.allow_splitting,
                ) ==> r@.map_values(|c: BuildConveyorCandidate| c@).contains((behind(player_tile@, f), f)),
            forall|i: int|
                0 <= i < r@.len() ==> candidate_valid_spec(
                    grid.bounds_model(),
                    grid.tiles_model(),
                    (#[trigger] r@[i])@,
                    self.allow_splitting,
                ),
    {
        proof {
            law_targets_are_every_valid_place_around(
                grid.bounds_model(),
                grid.tiles_model(),
                player_tile@,
                self.allow_splitting,
            );
        }
        let ghost bounds = grid.bounds_model();
        let ghost tiles = grid.tiles_model();
        let ghost p = player_tile@;
        let mut result: Vec<BuildConveyorCandidate> = Vec::new();
        let mut k: usize = 0;
        while k < 4
            invariant
                k <= 4,
                bounds == grid.bounds_model(),
                tiles == grid.tiles_model(),
                p == player_tile@,
                surroundings_queryable(bounds, p),
                result@.map_values(|c: BuildConveyorCandidate| c@) == valid_candidates(
                    bounds,
                    tiles,
                    p,
                    self.allow_splitting,
                    (2 * k) as nat,
                ),
            decreases 4 - k,
        {
            let facing = Facing::from_index(k);
            let here = BuildConveyorCandidate { position: player_tile, input_side: facing };
            proof {
                assert(here@ == considered_candidate(p, 2 * k as int));
                assert(surroundings_queryable(bounds, p));
                let n = neighbor(p, k as int);
                assert(in_i32(n.0) && in_i32(n.1) && tile_query_ok(bounds, n));
            }
            let ghost before = result@;
            if candidate_valid(grid, here, self.allow_splitting) {
                result.push(here);
            }
            proof {
                assert(result@.map_values(|c: BuildConveyorCandidate| c@) =~= valid_candidates(
                    bounds,
                    tiles,
                    p,
                    self.allow_splitting,
                    (2 * k + 1) as nat,
                ));
            }
            let u = facing.unit_vector();
            proof {
                lemma_behind_is_opposite_neighbor(p, k as int);
                let n = neighbor(p, (k as int + 2) % 4);
                assert(in_i32(n.0) && in_i32(n.1) && tile_query_ok(bounds, n));
            }
            let back = GridVector(player_tile.0 - 2 * u.0, player_tile.1 - 2 * u.1);
            let there = BuildConveyorCandidate { position: back, input_side: facing };
            proof {
                assert(there@ == considered_candidate(p, 2 * k as int + 1));
            }
            if candidate_valid(grid, there, self.allow_splitting) {
                result.push(there);
            }
            proof {
                assert(result@.map_values(|c: BuildConveyorCandidate| c@) =~= valid_candidates(
                    bounds,
                    tiles,
                    p,
                    self.allow_splitting,
                    (2 * k + 2) as nat,
                ));
            }
            k = k + 1;
        }
        proof {
            let vc = valid_candidates(bounds, tiles, p, self.allow_splitting, 8);
            assert forall|i: int| 0 <= i < result@.len() implies candidate_valid_spec(
                bounds,
                tiles,
                (#[trigger] result@[i])@,
                self.allow_splitting,
            ) by {
                assert(result@.map_values(|c: BuildConveyorCandidate| c@)[i] == result@[i]@);
                assert(vc.contains(result@[i]@));
            }
        }
        result
    }

    /// Builds a conveyor at `target`, one of the places `valid_targets` gives: the tile gets a
    /// new conveyor with an input on the target's input side, and a conveyor on the input tile
    /// gets an output on its side towards the new one; nothing else changes.
    pub fn finish(&self, grid: &mut Grid<Option<MechanismKind>>, target: BuildConveyorCandidate)
        requires
            target.input_side@ < 4,
            tile_query_ok(old(grid).bounds_model(), target.position@),
            in_i32(neighbor(target.position@, target.input_side@).0),
            in_i32(neighbor(target.position@, target.input_side@).1),
            tile_query_ok(old(grid).bounds_model(), neighbor(target.position@, target.input_side@)),
            candidate_valid_spec(
                old(grid).bounds_model(),
                old(grid).tiles_model(),
                target@,
                self.allow_splitting,
            ),
        ensures
            final(grid).bounds_model() == old(grid).bounds_model(),
            ({
                let bounds = old(grid).bounds_model();
                let before = old(grid).tiles_model();
                let after = final(grid).tiles_model();
                let side = target.input_side@;
                let here = tile_index(bounds, target.position@).unwrap();
                let there = tile_index(bounds, neighbor(target.position@, side)).unwrap();
                &&& after.len() == before.len()
                &&& after[here] matches Some(MechanismKind::Conveyor(c)) && c.sides@
                    == new_conveyor_sides(side) && c.last_sent@ == 0
                &&& match before[there] {
                    Some(MechanismKind::Conveyor(c)) => after[there] matches Some(
                        MechanismKind::Conveyor(d),
                    ) && d.sides@ == c.sides@.update((side + 2) % 4, ConveyorSide::Output)
                        && d.last_sent == c.last_sent,
                    other => after[there] == other,
                }
                &&& forall|j: int|
                    0 <= j < after.len() && j != here && j != there ==> after[j] == before[j]
            }),
    {
        let ghost bounds = grid.bounds_model();
        let ghost before = grid.tiles_model();
        let side = target.input_side.as_index();
        let sides = with_side(
            [
                ConveyorSide::Disconnected,
                ConveyorSide::Disconnected,
                ConveyorSide::Disconnected,
                ConveyorSide::Disconnected,
            ],
            side,
            ConveyorSide::Input,
        );
        let conveyor = Conveyor { sides, last_sent: Facing::from_index(0) };
        proof {
            assert(conveyor.sides@ =~= new_conveyor_sides(side as int));
        }
        let input_position = target.input_position();
        let output_side = target.output_side();
        proof {
            assert(target.position@ != input_position@);
            if tile_index(bounds, target.position@) == tile_index(bounds, input_position@) {
                lemma_tile_index_injective(bounds, target.position@, input_position@);
            }
        }
        match grid.get_mut(target.position) {
            Some(tile) => {
                *tile = Some(MechanismKind::Conveyor(conveyor));
            },
            None => {},
        }
        match grid.get_mut(input_position) {
            Some(tile) => {
                if let Some(MechanismKind::Conveyor(c)) = *tile {
                    *tile = Some(
                        MechanismKind::Conveyor(
                            Conveyor {
                                sides: with_side(c.sides, output_side.as_index(), ConveyorSide::Output),
                                last_sent: c.last_sent,
                            },
                        ),
                    );
                }
            },
            None => {},
        }
    }

    /// Whether a conveyor can be built anywhere around the player's tile.
    pub fn possible(&self, grid: &Grid<Option<MechanismKind>>, player_tile: GridVector) -> (r: bool)
        requires
            surroundings_queryable(grid.bounds_model(), player_tile@),
        ensures
            r == (valid_candidates(
                grid.bounds_model(),
                grid.tiles_model(),
                player_tile@,
                self.allow_splitting,
                8,
            ).len() > 0),
            r == exists|f: int|
                0 <= f < 4 && #[trigger] valid_on_side(
                    grid.bounds_model(),
                    grid.tiles_model(),
                    player_tile@,
                    f,
                    self.allow_splitting,
                ),
    {
        let targets = self.valid_targets(grid, player_tile);
        proof {
            let bounds = grid.bounds_model();
            let tiles = grid.tiles_model();
            let p = player_tile@;
            let vc = valid_candidates(bounds, tiles, p, self.allow_splitting, 8);
            law_targets_are_every_valid_place_around(bounds, tiles, p, self.allow_splitting);
            if vc.len() > 0 {
                assert(vc.contains(vc[0]));
                let f = choose|f: int| 0 <= f < 4 && (vc[0] == (p, f) || vc[0] == (behind(p, f), f));
                assert(valid_on_side(bounds, tiles, p, f, self.allow_splitting));
            }
            if exists|f: int| 0 <= f < 4 && #[trigger] valid_on_side(bounds, tiles, p, f, self.allow_splitting) {
                let f = choose|f: int| 0 <= f < 4 && #[trigger] valid_on_side(bounds, tiles, p, f, self.allow_splitting);
                if candidate_valid_spec(bounds, tiles, (p, f), self.allow_splitting) {
                    assert(vc.contains((p, f)));
                } else {
                    assert(vc.contains((behind(p, f), f)));
                }
            }
        }
        targets.len() > 0
    }
}

/// A place where a conveyor was just built is no longer a place to build one: its tile holds
/// a conveyor whose side towards the input is in use.
pub proof fn law_built_target_is_no_longer_valid(
    bounds: BoundsModel,
    tiles: Seq<Option<MechanismKind>>,
    target: ((int, int), int),
    allow_splitting: bool,
)
    requires
        0 <= target.1 < 4,
        mechanism_at(bounds, tiles, target.0) matches Some(MechanismKind::Conveyor(c)) && c.sides@
            == new_conveyor_sides(target.1),
    ensures
        !candidate_valid_spec(bounds, tiles, target, allow_splitting),
{
}

/// A conveyor is never built over another kind of mechanism: where the tile holds a tower or
/// the deck, no candidate there is valid; where it holds a conveyor, only one whose side
/// towards the input is unused.
pub proof fn law_only_conveyors_are_built_over(
    bounds: BoundsModel,
    tiles: Seq<Option<MechanismKind>>,
    candidate: ((int, int), int),
    allow_splitting: bool,
)
    ensures
        mechanism_at(bounds, tiles, candidate.0) matches Some(m) && !(m is Conveyor)
            ==> !candidate_valid_spec(bounds, tiles, candidate, allow_splitting),
        mechanism_at(bounds, tiles, candidate.0) matches Some(MechanismKind::Conveyor(c))
            && c.sides@[candidate.1] != ConveyorSide::Disconnected ==> !candidate_valid_spec(
            bounds,
            tiles,
            candidate,
            allow_splitting,
        ),
{
}

proof fn lemma_valid_candidates_are_the_valid_considered(
    bounds: BoundsModel,
    tiles: Seq<Option<MechanismKind>>,
    p: (int, int),
    allow_splitting: bool,
    k: nat,
)
    ensures
        forall|j: int|
            0 <= j < k && candidate_valid_spec(bounds, tiles, #[trigger] considered_candidate(p, j), allow_splitting)
                ==> valid_candidates(bounds, tiles, p, allow_splitting, k).contains(considered_candidate(p, j)),
        forall|x: ((int, int), int)|
            #[trigger] valid_candidates(bounds, tiles, p, allow_splitting, k).contains(x) ==> candidate_valid_spec(
                bounds,
                tiles,
                x,
                allow_splitting,
            ) && exists|j: int| 0 <= j < k && x == #[trigger] considered_candidate(p, j),
    decreases k,
{
    if k > 0 {
        lemma_valid_candidates_are_the_valid_considered(bounds, tiles, p, allow_splitting, (k - 1) as nat);
        let before = valid_candidates(bounds, tiles, p, allow_splitting, (k - 1) as nat);
        let c = considered_candidate(p, k - 1);
        let now = valid_candidates(bounds, tiles, p, allow_splitting, k);
        if candidate_valid_spec(bounds, tiles, c, allow_splitting) {
            assert(now == before.push(c));
            assert(now[now.len() - 1] == c);
            assert forall|x: ((int, int), int)| #[trigger] now.contains(x) implies candidate_valid_spec(
                bounds,
                tiles,
                x,
                allow_splitting,
            ) && exists|j: int| 0 <= j < k && x == #[trigger] considered_candidate(p, j) by {
                let idx = choose|idx: int| 0 <= idx < now.len() && now[idx] == x;
                if idx < before.len() {
                    assert(before[idx] == x);
                    assert(before.contains(x));
                } else {
                    assert(x == considered_candidate(p, k - 1));
                }
            }
            assert forall|j: int|
                0 <= j < k && candidate_valid_spec(bounds, tiles, #[trigger] considered_candidate(p, j), allow_splitting)
                    implies now.contains(considered_candidate(p, j)) by {
                if j < k - 1 {
                    let x = considered_candidate(p, j);
                    assert(before.contains(x));
                    let idx = choose|idx: int| 0 <= idx < before.len() && before[idx] == x;
                    assert(now[idx] == x);
                }
            }
        } else {
            assert(now == before);
        }
    }
}

/// The targets around the player's tile `p` are exactly the valid places among those
/// considered: for each facing `f`, the player's tile taking material from side `f`, and the
/// tile behind the player on side `f` taking material from the player's tile. Every such place
/// that is valid is offered, and every place offered is one of them and valid.
pub proof fn law_targets_are_every_valid_place_around(
    bounds: BoundsModel,
    tiles: Seq<Option<MechanismKind>>,
    p: (int, int),
    allow_splitting: bool,
)
    ensures
        forall|f: int|
            0 <= f < 4 && #[trigger] candidate_valid_spec(bounds, tiles, (p, f), allow_splitting)
                ==> valid_candidates(bounds, tiles, p, allow_splitting, 8).contains((p, f)),
        forall|f: int|
            0 <= f < 4 && #[trigger] candidate_valid_spec(bounds, tiles, (behind(p, f), f), allow_splitting)
                ==> valid_candidates(bounds, tiles, p, allow_splitting, 8).contains((behind(p, f), f)),
        forall|x: ((int, int), int)|
            #[trigger] valid_candidates(bounds, tiles, p, allow_splitting, 8).contains(x) ==> candidate_valid_spec(
                bounds,
                tiles,
                x,
                allow_splitting,
            ) && exists|f: int| 0 <= f < 4 && (x == (p, f) || x == (behind(p, f), f)),
{
    lemma_valid_candidates_are_the_valid_considered(bounds, tiles, p, allow_splitting, 8);
    assert forall|f: int|
        0 <= f < 4 && #[trigger] candidate_valid_spec(bounds, tiles, (p, f), allow_splitting)
            implies valid_candidates(bounds, tiles, p, allow_splitting, 8).contains((p, f)) by {
        assert(considered_candidate(p, 2 * f) == (p, f));
    }
    assert forall|f: int|
        0 <= f < 4 && #[trigger] candidate_valid_spec(bounds, tiles, (behind(p, f), f), allow_splitting)
            implies valid_candidates(bounds, tiles, p, allow_splitting, 8).contains((behind(p, f), f)) by {
        assert(considered_candidate(p, 2 * f + 1) == (behind(p, f), f));
    }
    assert forall|x: ((int, int), int)|
        #[trigger] valid_candidates(bounds, tiles, p, allow_splitting, 8).contains(x) implies candidate_valid_spec(
            bounds,
            tiles,
            x,
            allow_splitting,
        ) && exists|f: int| 0 <= f < 4 && (x == (p, f) || x == (behind(p, f), f)) by {
        let j = choose|j: int| 0 <= j < 8 && x == #[trigger] considered_candidate(p, j);
        let f = j / 2;
        assert(0 <= f < 4);
        assert(x == (p, f) || x == (behind(p, f), f));
    }
}

proof fn lemma_cast_injective(a: i32, b: i32)
    requires
        (a as usize) == (b as usize),
    ensures
        a == b,
{
    assert((a as usize) == (b as usize) ==> a == b) by (bit_vector);
}

/// Two tile centers that the index query maps to the same tile are the same.
proof fn lemma_tile_index_injective(bounds: BoundsModel, p: (int, int), q: (int, int))
    requires
        tile_query_ok(bounds, p),
        tile_query_ok(bounds, q),
        tile_index(bounds, p) is Some,
        tile_index(bounds, p) == tile_index(bounds, q),
    ensures
        p == q,
{
    let i = tile_index(bounds, p).unwrap();
    let up = cast_coordinates(bounds, p);
    let uq = cast_coordinates(bounds, q);
    lemma_row_major_split(i, bounds.1.0, up.0, up.1);
    lemma_row_major_split(i, bounds.1.0, uq.0, uq.1);
    let cp = tile_coordinates(bounds, p);
    let cq = tile_coordinates(bounds, q);
    lemma_cast_injective(cp.0 as i32, cq.0 as i32);
    lemma_cast_injective(cp.1 as i32, cq.1 as i32);
}

} // verus!
