use vstd::prelude::*;
use crate::deck_geometry::{
    tile_index, tile_position, tile_position_ok, tile_query_ok, BoundsModel, Grid, GridBounds,
};

verus! {

/// What kind of thing a mover is.
#[derive(Copy, Clone, PartialEq, Eq, Debug, Structural)]
pub enum MoverType {
    Monster,
    Projectile,
    Material,
}

impl Default for MoverType {
    fn default() -> (r: MoverType)
        ensures
            r == MoverType::Monster,
    {
        MoverType::Monster
    }
}

/// The identity of a mover in a game.
#[derive(Copy, Clone, PartialEq, Eq, PartialOrd, Ord, Hash, Debug, Default, Structural)]
pub struct MoverId(pub usize);

/// The grid of tiles, each listing the movers whose bounds cover it.
pub type MoverTiles = Grid<Vec<MoverId>>;

/// The tiles of a mover grid as mathematical values.
pub open spec fn mover_lists(grid: MoverTiles) -> Seq<Seq<MoverId>> {
    grid.tiles_model().map_values(|tile: Vec<MoverId>| tile@)
}

/// How many of the first `n` tiles of `bounds` fall on grid tile number `index`.
pub open spec fn touches(grid_bounds: BoundsModel, bounds: BoundsModel, index: int, n: nat) -> nat
    decreases n,
{
    if n == 0 {
        0
    } else {
        touches(grid_bounds, bounds, index, (n - 1) as nat) + if tile_index(
            grid_bounds,
            tile_position(bounds, n - 1),
        ) == Some(index) {
            1nat
        } else {
            0nat
        }
    }
}

/// The number of tiles `bounds` covers.
pub open spec fn tile_count(bounds: BoundsModel) -> nat {
    (bounds.1.0 * bounds.1.1) as nat
}

/// The tiles of `bounds` can be listed and looked up in a grid with bounds `grid_bounds`.
pub open spec fn bounds_fit_grid(grid_bounds: BoundsModel, bounds: BoundsModel) -> bool {
    &&& bounds.1.0 * bounds.1.1 <= usize::MAX
    &&& forall|k: int| 0 <= k < tile_count(bounds) ==> #[trigger] tile_position_ok(bounds, k)
    &&& forall|k: int|
        0 <= k < tile_count(bounds) ==> #[trigger] tile_query_ok(
            grid_bounds,
            tile_position(bounds, k),
        )
}

/// `id` repeated `n` times.
pub open spec fn repeated(id: MoverId, n: nat) -> Seq<MoverId> {
    Seq::new(n, |j: int| id)
}

/// Lists the mover `id` in every grid tile that `bounds` covers, once for each time it covers
/// the tile, after the movers already listed there.
pub fn store_mover_bounds(tiles: &mut MoverTiles, id: MoverId, bounds: &GridBounds)
    requires
        bounds_fit_grid(old(tiles).bounds_model(), bounds@),
    ensures
        final(tiles).bounds_model() == old(tiles).bounds_model(),
        mover_lists(*final(tiles)).len() == mover_lists(*old(tiles)).len(),
        forall|i: int|
            0 <= i < mover_lists(*old(tiles)).len() ==> #[trigger] mover_lists(*final(tiles))[i]
                == mover_lists(*old(tiles))[i] + repeated(
                id,
                touches(old(tiles).bounds_model(), bounds@, i, tile_count(bounds@)),
            ),
{
    let ghost gb = tiles.bounds_model();
    let ghost start = mover_lists(*tiles);
    let centers = bounds.tile_centers();
    let mut k: usize = 0;
    while k < centers.len()
        invariant
            k <= centers.len(),
            centers.len() == tile_count(bounds@),
            forall|j: int| 0 <= j < centers.len() ==> #[trigger] centers[j]@ == tile_position(bounds@, j),
            bounds_fit_grid(gb, bounds@),
            tiles.bounds_model() == gb,
            mover_lists(*tiles).len() == start.len(),
            forall|i: int|
                0 <= i < start.len() ==> #[trigger] mover_lists(*tiles)[i] == start[i] + repeated(
                    id,
                    touches(gb, bounds@, i, k as nat),
                ),
        decreases centers.len() - k,
    {
        let ghost before = mover_lists(*tiles);
        assert(tile_query_ok(gb, tile_position(bounds@, k as int)));
        let ghost slot = tile_index(gb, centers[k as int]@);
        let slot_ref = tiles.get_mut(centers[k]);
        match slot_ref {
            Some(tile) => {
                tile.push(id);
            },
            None => {},
        }
        proof {
            assert forall|i: int| 0 <= i < start.len() implies #[trigger] mover_lists(*tiles)[i]
                == start[i] + repeated(id, touches(gb, bounds@, i, (k + 1) as nat)) by {
                if slot == Some(i) {
                    assert(repeated(id, touches(gb, bounds@, i, (k + 1) as nat)) =~= repeated(
                        id,
                        touches(gb, bounds@, i, k as nat),
                    ).push(id));
                    assert(mover_lists(*tiles)[i] =~= before[i].push(id));
                } else {
                    assert(mover_lists(*tiles)[i] == before[i]);
                }
            }
        }
        k = k + 1;
    }
}

/// The movers of a list other than `id`, in order.
pub open spec fn without(list: Seq<MoverId>, id: MoverId) -> Seq<MoverId> {
    list.filter(|x: MoverId| x != id)
}

fn remove_all(list: &mut Vec<MoverId>, id: MoverId)
    ensures
        final(list)@ == without(old(list)@, id),
{
    let mut kept: Vec<MoverId> = Vec::new();
    let mut i: usize = 0;
    while i < list.len()
        invariant
            i <= list.len(),
            kept@ == without(list@.take(i as int), id),
        decreases list.len() - i,
    {
        proof {
            reveal_with_fuel(Seq::filter, 1);
            assert(list@.take(i + 1).drop_last() =~= list@.take(i as int));
        }
        if list[i] != id {
            kept.push(list[i]);
        }
        i = i + 1;
    }
    proof {
        assert(list@.take(list@.len() as int) =~= list@);
    }
    *list = kept;
}

/// Removes the mover `id` from every grid tile that `bounds` covers.
pub fn forget_mover_bounds(tiles: &mut MoverTiles, id: MoverId, bounds: &GridBounds)
    requires
        bounds_fit_grid(old(tiles).bounds_model(), bounds@),
    ensures
        final(tiles).bounds_model() == old(tiles).bounds_model(),
        mover_lists(*final(tiles)).len() == mover_lists(*old(tiles)).len(),
        forall|i: int|
            0 <= i < mover_lists(*old(tiles)).len() ==> #[trigger] mover_lists(*final(tiles))[i]
                == if touches(old(tiles).bounds_model(), bounds@, i, tile_count(bounds@)) > 0 {
                without(mover_lists(*old(tiles))[i], id)
            } else {
                mover_lists(*old(tiles))[i]
            },
{
    let ghost gb = tiles.bounds_model();
    let ghost start = mover_lists(*tiles);
    let centers = bounds.tile_centers();
    let mut k: usize = 0;
    while k < centers.len()
        invariant
            k <= centers.len(),
            centers.len() == tile_count(bounds@),
            forall|j: int| 0 <= j < centers.len() ==> #[trigger] centers[j]@ == tile_position(bounds@, j),
            bounds_fit_grid(gb, bounds@),
            tiles.bounds_model() == gb,
            mover_lists(*tiles).len() == start.len(),
            forall|i: int|
                0 <= i < start.len() ==> #[trigger] mover_lists(*tiles)[i] == if touches(
                    gb,
                    bounds@,
                    i,
                    k as nat,
                ) > 0 {
                    without(start[i], id)
                } else {
                    start[i]
                },
        decreases centers.len() - k,
    {
        let ghost before = mover_lists(*tiles);
        assert(tile_query_ok(gb, tile_position(bounds@, k as int)));
        let ghost slot = tile_index(gb, centers[k as int]@);
        let slot_ref = tiles.get_mut(centers[k]);
        match slot_ref {
            Some(tile) => {
                remove_all(tile, id);
            },
            None => {},
        }
        proof {
            assert forall|i: int| 0 <= i < start.len() implies #[trigger] mover_lists(*tiles)[i]
                == if touches(gb, bounds@, i, (k + 1) as nat) > 0 {
                without(start[i], id)
            } else {
                start[i]
            } by {
                if slot == Some(i) {
                    lemma_without_twice(start[i], id);
                    assert(mover_lists(*tiles)[i] == without(before[i], id));
                } else {
                    assert(mover_lists(*tiles)[i] == before[i]);
                }
            }
        }
        k = k + 1;
    }
}

proof fn lemma_without_twice(list: Seq<MoverId>, id: MoverId)
    ensures
        without(without(list, id), id) == without(list, id),
    decreases list.len(),
{
    reveal_with_fuel(Seq::filter, 1);
    if list.len() > 0 {
        lemma_without_twice(list.drop_last(), id);
        assert(list.drop_last().push(list.last()) =~= list);
        if list.last() != id {
            assert(without(list, id) =~= without(list.drop_last(), id).push(list.last()));
            assert(without(list, id).drop_last() =~= without(list.drop_last(), id));
        }
    } else {
        assert(without(list, id) =~= list);
    }
    assert(without(without(list, id), id) =~= without(list, id));
}

proof fn lemma_without_appended(list: Seq<MoverId>, id: MoverId, n: nat)
    ensures
        without(list + repeated(id, n), id) == without(list, id),
    decreases n,
{
    reveal_with_fuel(Seq::filter, 1);
    if n > 0 {
        let shorter = list + repeated(id, (n - 1) as nat);
        assert((list + repeated(id, n)).drop_last() =~= shorter);
        lemma_without_appended(list, id, (n - 1) as nat);
    } else {
        assert(list + repeated(id, n) =~= list);
    }
}

proof fn lemma_without_absent(list: Seq<MoverId>, id: MoverId)
    requires
        !list.contains(id),
    ensures
        without(list, id) == list,
    decreases list.len(),
{
    reveal_with_fuel(Seq::filter, 1);
    if list.len() > 0 {
        assert(!list.drop_last().contains(id)) by {
            if list.drop_last().contains(id) {
                let j = choose|j: int| 0 <= j < list.drop_last().len() && list.drop_last()[j] == id;
                assert(list[j] == id);
            }
        }
        lemma_without_absent(list.drop_last(), id);
        assert(list.drop_last().push(list.last()) =~= list);
    } else {
        assert(without(list, id) =~= list);
    }
}

/// Forgetting a mover's bounds undoes storing them: where the mover was listed in none of the
/// tiles before, every tile list comes back as it was.
pub proof fn law_forget_undoes_store(
    before: Seq<Seq<MoverId>>,
    stored: Seq<Seq<MoverId>>,
    forgotten: Seq<Seq<MoverId>>,
    grid_bounds: BoundsModel,
    bounds: BoundsModel,
    id: MoverId,
)
    requires
        forall|i: int| 0 <= i < before.len() ==> !(#[trigger] before[i]).contains(id),
        stored.len() == before.len(),
        forall|i: int|
            0 <= i < before.len() ==> #[trigger] stored[i] == before[i] + repeated(
                id,
                touches(grid_bounds, bounds, i, tile_count(bounds)),
            ),
        forgotten.len() == stored.len(),
        forall|i: int|
            0 <= i < stored.len() ==> #[trigger] forgotten[i] == if touches(
                grid_bounds,
                bounds,
                i,
                tile_count(bounds),
            ) > 0 {
                without(stored[i], id)
            } else {
                stored[i]
            },
    ensures
        forgotten == before,
{
    assert forall|i: int| 0 <= i < before.len() implies #[trigger] forgotten[i] == before[i] by {
        let n = touches(grid_bounds, bounds, i, tile_count(bounds));
        if n > 0 {
            lemma_without_appended(before[i], id, n);
            lemma_without_absent(before[i], id);
        } else {
            assert(stored[i] =~= before[i]);
        }
    }
    assert(forgotten =~= before);
}

} // verus!
