use vstd::prelude::*;
use crate::geometry::{exact_facing_of, rotate_point};

verus! {

/// Half the width of a map tile.
pub const TILE_RADIUS: i32 = 1;
/// The width of a map tile; tile centers sit `TILE_WIDTH` apart.
pub const TILE_WIDTH: i32 = TILE_RADIUS * 2;

/// Whether a mathematical integer fits in an `i32`.
pub open spec fn in_i32(x: int) -> bool {
    i32::MIN <= x <= i32::MAX
}

/// A position on the tile grid.
#[derive(Copy, Clone, PartialEq, Eq, Hash, Debug, Default, Structural)]
pub struct GridVector(pub i32, pub i32);

impl View for GridVector {
    type V = (int, int);

    open spec fn view(&self) -> (int, int) {
        (self.0 as int, self.1 as int)
    }
}

/// One of the four axis directions, as quarter turns from +x towards +y.
#[derive(Copy, Clone, PartialEq, Eq, Hash, Debug, Structural)]
pub struct Facing(u8);

/// A turn by quarter turns.
#[derive(Copy, Clone, PartialEq, Eq, Hash, Debug, Structural)]
pub struct Rotation(u8);

impl View for Facing {
    type V = int;

    closed spec fn view(&self) -> int {
        self.0 as int
    }
}

impl View for Rotation {
    type V = int;

    closed spec fn view(&self) -> int {
        self.0 as int
    }
}

impl Default for Facing {
    fn default() -> (f: Facing)
        ensures
            f@ == 0,
    {
        Facing(0)
    }
}

impl Default for Rotation {
    fn default() -> (r: Rotation)
        ensures
            r@ == 0,
    {
        Rotation(0)
    }
}

impl Rotation {
    /// The rotation of `quarter_turns` quarter turns.
    pub fn new(quarter_turns: u8) -> (r: Rotation)
        ensures
            r@ == quarter_turns,
    {
        Rotation(quarter_turns)
    }

    pub fn quarter_turns_from_posx_towards_posy(self) -> (r: u8)
        ensures
            r == self@,
    {
        self.0
    }

    /// Every rotation holds a `u8`.
    pub proof fn lemma_view_range(&self)
        ensures
            0 <= self@ <= 255,
    {
    }
}

impl Facing {
    pub fn as_index(self) -> (r: usize)
        ensures
            r == self@,
    {
        self.0 as usize
    }

    /// The facing with the given index, truncated to a byte.
    pub fn from_index(index: usize) -> (f: Facing)
        ensures
            f@ == (index as u8) as int,
    {
        Facing(index as u8)
    }

    /// The unit vector along this facing.
    pub fn unit_vector(self) -> (v: GridVector)
        requires
            self@ < 4,
        ensures
            v@ == rotate_point((1, 0), self@),
    {
        match self.0 {
            0 => GridVector(1, 0),
            1 => GridVector(0, 1),
            2 => GridVector(-1, 0),
            _ => GridVector(0, -1),
        }
    }

    /// Every facing holds a `u8`.
    pub proof fn lemma_view_range(&self)
        ensures
            0 <= self@ <= 255,
    {
    }
}

impl std::ops::Add<Rotation> for Facing {
    type Output = Facing;

    fn add(self, other: Rotation) -> (r: Facing) {
        Facing((self.0 + other.0) % 4)
    }
}

impl vstd::std_specs::ops::AddSpecImpl<Rotation> for Facing {
    open spec fn obeys_add_spec() -> bool {
        true
    }

    open spec fn add_req(self, other: Rotation) -> bool {
        self@ + other@ <= 255
    }

    closed spec fn add_spec(self, other: Rotation) -> Facing {
        Facing(((self.0 + other.0) % 4) as u8)
    }
}

impl std::ops::Sub<Facing> for Facing {
    type Output = Rotation;

    fn sub(self, other: Facing) -> (r: Rotation) {
        Rotation((4 + self.0 - other.0) % 4)
    }
}

impl vstd::std_specs::ops::SubSpecImpl<Facing> for Facing {
    open spec fn obeys_sub_spec() -> bool {
        true
    }

    open spec fn sub_req(self, other: Facing) -> bool {
        4 + self@ <= 255 && other@ <= 4 + self@
    }

    closed spec fn sub_spec(self, other: Facing) -> Rotation {
        Rotation(((4 + self.0 - other.0) % 4) as u8)
    }
}

impl Facing {
    /// What `facing + rotation` computes.
    pub proof fn lemma_add_spec(self, other: Rotation)
        requires
            self@ + other@ <= 255,
        ensures
            vstd::std_specs::ops::AddSpec::add_spec(self, other)@ == (self@ + other@) % 4,
    {
    }

    /// What `facing - other` computes.
    pub proof fn lemma_sub_spec(self, other: Facing)
        requires
            4 + self@ <= 255,
            other@ <= 4 + self@,
        ensures
            vstd::std_specs::ops::SubSpec::sub_spec(self, other)@ == (4 + self@ - other@) % 4,
    {
    }
}

impl GridVector {
    pub fn new(x: i32, y: i32) -> (v: GridVector)
        ensures
            v@ == (x as int, y as int),
    {
        GridVector(x, y)
    }

    /// The facing this vector points along exactly, if it lies on an axis.
    pub fn exact_facing(&self) -> (r: Option<Facing>)
        ensures
            r matches Some(f) ==> f@ == exact_facing_of(self@).unwrap(),
            r is None ==> exact_facing_of(self@) is None,
    {
        if self.0 > 0 && self.1 == 0 {
            Some(Facing(0))
        } else if self.0 == 0 && self.1 > 0 {
            Some(Facing(1))
        } else if self.0 < 0 && self.1 == 0 {
            Some(Facing(2))
        } else if self.0 == 0 && self.1 < 0 {
            Some(Facing(3))
        } else {
            None
        }
    }
}

/// A rectangle of tiles: the center of its lowest tile and its size in tiles.
#[derive(Copy, Clone, PartialEq, Eq, Debug, Default)]
pub struct GridBounds {
    min_tile_center: GridVector,
    size_in_tiles: (usize, usize),
}

/// Grid bounds as mathematical values: (lowest tile center, size in tiles).
pub type BoundsModel = ((int, int), (int, int));

impl View for GridBounds {
    type V = BoundsModel;

    closed spec fn view(&self) -> BoundsModel {
        (self.min_tile_center@, (self.size_in_tiles.0 as int, self.size_in_tiles.1 as int))
    }
}

/// The tile coordinates of a position, counted in tiles from the lowest tile center.
pub open spec fn tile_coordinates(bounds: BoundsModel, position: (int, int)) -> (int, int) {
    ((position.0 - bounds.0.0) / 2, (position.1 - bounds.0.1) / 2)
}

/// The tile coordinates as the bounds check sees them: cast to `usize`.
pub open spec fn cast_coordinates(bounds: BoundsModel, position: (int, int)) -> (int, int) {
    let c = tile_coordinates(bounds, position);
    ((c.0 as i32 as usize) as int, (c.1 as i32 as usize) as int)
}

/// What a tile query may be given: a tile center, on the same parity as the bounds, with the
/// differences and the resulting index inside the machine's integers.
pub open spec fn tile_query_ok(bounds: BoundsModel, position: (int, int)) -> bool {
    let c = cast_coordinates(bounds, position);
    &&& in_i32(position.0 - bounds.0.0)
    &&& in_i32(position.1 - bounds.0.1)
    &&& (position.0 - bounds.0.0) % 2 == 0
    &&& (position.1 - bounds.0.1) % 2 == 0
    &&& (c.0 < bounds.1.0 && c.1 < bounds.1.1 ==> c.0 + c.1 * bounds.1.0 <= usize::MAX)
}

/// The index of a tile center in the row-major tile list, if it lies inside the bounds.
pub open spec fn tile_index(bounds: BoundsModel, position: (int, int)) -> Option<int> {
    let c = cast_coordinates(bounds, position);
    if c.0 < bounds.1.0 && c.1 < bounds.1.1 {
        Some(c.0 + c.1 * bounds.1.0)
    } else {
        None
    }
}

/// The tile center at a row-major index.
pub open spec fn tile_position(bounds: BoundsModel, index: int) -> (int, int) {
    (bounds.0.0 + (index % bounds.1.0) * 2, bounds.0.1 + (index / bounds.1.0) * 2)
}

/// Computing `tile_position` stays inside the machine's integers.
pub open spec fn tile_position_ok(bounds: BoundsModel, index: int) -> bool {
    &&& bounds.1.0 > 0
    &&& (index % bounds.1.0) * 2 <= i32::MAX
    &&& (index / bounds.1.0) * 2 <= i32::MAX
    &&& in_i32(tile_position(bounds, index).0)
    &&& in_i32(tile_position(bounds, index).1)
}

impl GridBounds {
    /// Every bounds value holds `i32` coordinates and `usize` sizes.
    pub proof fn lemma_view_range(&self)
        ensures
            in_i32(self@.0.0),
            in_i32(self@.0.1),
            0 <= self@.1.0 <= usize::MAX,
            0 <= self@.1.1 <= usize::MAX,
    {
    }

    fn index(&self, position: GridVector) -> (r: Option<usize>)
        requires
            tile_query_ok(self@, position@),
        ensures
            r matches Some(i) ==> tile_index(self@, position@) == Some(i as int),
            r is None ==> tile_index(self@, position@) is None,
    {
        let dx = position.0 - self.min_tile_center.0;
        let dy = position.1 - self.min_tile_center.1;
        let cx = dx / TILE_WIDTH;
        let cy = dy / TILE_WIDTH;
        proof {
            assert(cx == (position@.0 - self@.0.0) / 2);
            assert(cy == (position@.1 - self@.0.1) / 2);
        }
        if (cx as usize) < self.size_in_tiles.0 && (cy as usize) < self.size_in_tiles.1 {
            Some(cx as usize + cy as usize * self.size_in_tiles.0)
        } else {
            None
        }
    }

    fn position(&self, index: usize) -> (r: GridVector)
        requires
            tile_position_ok(self@, index as int),
        ensures
            r@ == tile_position(self@, index as int),
    {
        let y = index / self.size_in_tiles.0;
        let x = index % self.size_in_tiles.0;
        GridVector(
            self.min_tile_center.0 + x as i32 * TILE_WIDTH,
            self.min_tile_center.1 + y as i32 * TILE_WIDTH,
        )
    }

    /// The corner below and to the left of the lowest tile.
    pub fn min_tile_corner(&self) -> (r: GridVector)
        requires
            self@.0.0 - 1 >= i32::MIN,
            self@.0.1 - 1 >= i32::MIN,
        ensures
            r@ == (self@.0.0 - 1, self@.0.1 - 1),
    {
        GridVector(self.min_tile_center.0 - TILE_RADIUS, self.min_tile_center.1 - TILE_RADIUS)
    }

    /// The corner above and to the right of the highest tile.
    pub fn max_tile_corner(&self) -> (r: GridVector)
        requires
            self@.1.0 <= i32::MAX,
            self@.1.1 <= i32::MAX,
            self@.1.0 * 2 <= i32::MAX,
            self@.1.1 * 2 <= i32::MAX,
            in_i32(self@.0.0 + self@.1.0 * 2),
            in_i32(self@.0.1 + self@.1.1 * 2),
            in_i32(self@.0.0 + self@.1.0 * 2 - 1),
            in_i32(self@.0.1 + self@.1.1 * 2 - 1),
        ensures
            r@ == (self@.0.0 + self@.1.0 * 2 - 1, self@.0.1 + self@.1.1 * 2 - 1),
    {
        GridVector(
            self.min_tile_center.0 + self.size_in_tiles.0 as i32 * TILE_WIDTH - TILE_RADIUS,
            self.min_tile_center.1 + self.size_in_tiles.1 as i32 * TILE_WIDTH - TILE_RADIUS,
        )
    }

    pub fn min_tile_center(&self) -> (r: GridVector)
        ensures
            r@ == self@.0,
    {
        self.min_tile_center
    }

    /// The center of the highest tile.
    pub fn max_tile_center(&self) -> (r: GridVector)
        requires
            self@.1.0 <= i32::MAX,
            self@.1.1 <= i32::MAX,
            in_i32((self@.1.0 - 1) * 2),
            in_i32((self@.1.1 - 1) * 2),
            in_i32(self@.0.0 + (self@.1.0 - 1) * 2),
            in_i32(self@.0.1 + (self@.1.1 - 1) * 2),
        ensures
            r@ == (self@.0.0 + (self@.1.0 - 1) * 2, self@.0.1 + (self@.1.1 - 1) * 2),
    {
        GridVector(
            self.min_tile_center.0 + (self.size_in_tiles.0 as i32 - 1) * TILE_WIDTH,
            self.min_tile_center.1 + (self.size_in_tiles.1 as i32 - 1) * TILE_WIDTH,
        )
    }

    /// The centers of all tiles, in row-major order.
    pub fn tile_centers(&self) -> (r: Vec<GridVector>)
        requires
            self@.1.0 * self@.1.1 <= usize::MAX,
            forall|i: int| 0 <= i < self@.1.0 * self@.1.1 ==> tile_position_ok(self@, i),
        ensures
            r.len() == self@.1.0 * self@.1.1,
            forall|i: int| 0 <= i < r.len() ==> #[trigger] r[i]@ == tile_position(self@, i),
    {
        let n = self.size_in_tiles.0 * self.size_in_tiles.1;
        let mut result: Vec<GridVector> = Vec::new();
        let mut i: usize = 0;
        while i < n
            invariant
                i <= n,
                n == self@.1.0 * self@.1.1,
                result.len() == i,
                forall|k: int| 0 <= k < n ==> tile_position_ok(self@, k),
                forall|k: int| 0 <= k < i ==> #[trigger] result[k]@ == tile_position(self@, k),
            decreases n - i,
        {
            result.push(self.position(i));
            i = i + 1;
        }
        result
    }
}

/// A rectangle of tiles, each holding a value.
#[derive(PartialEq, Debug)]
pub struct Grid<T> {
    bounds: GridBounds,
    tiles: Vec<T>,
}

impl<T> Grid<T> {
    #[verifier::type_invariant]
    spec fn tile_count_matches(self) -> bool {
        self.tiles.len() == self.bounds.size_in_tiles.0 * self.bounds.size_in_tiles.1
    }

    /// The bounds of the grid as mathematical values.
    pub closed spec fn bounds_model(&self) -> BoundsModel {
        self.bounds@
    }

    /// The tiles, in row-major order.
    pub closed spec fn tiles_model(&self) -> Seq<T> {
        self.tiles@
    }
}

impl<T: Clone> Clone for Grid<T> {
    fn clone(&self) -> (r: Grid<T>)
        ensures
            r.bounds_model() == self.bounds_model(),
            r.tiles_model().len() == self.tiles_model().len(),
    {
        proof {
            use_type_invariant(self);
        }
        Grid { bounds: self.bounds, tiles: self.tiles.clone() }
    }
}

impl<T: Default> Grid<T> {
    /// A grid of default tiles with the given lowest tile center and size.
    pub fn new(min_tile_center: GridVector, size_in_tiles: (usize, usize)) -> (g: Grid<T>)
        requires
            size_in_tiles.0 * size_in_tiles.1 <= usize::MAX,
        ensures
            g.bounds_model() == (min_tile_center@, (size_in_tiles.0 as int, size_in_tiles.1 as int)),
            g.tiles_model().len() == size_in_tiles.0 * size_in_tiles.1,
    {
        let n = size_in_tiles.0 * size_in_tiles.1;
        let mut tiles: Vec<T> = Vec::new();
        let mut i: usize = 0;
        while i < n
            invariant
                i <= n,
                tiles.len() == i,
            decreases n - i,
        {
            tiles.push(T::default());
            i = i + 1;
        }
        Grid { bounds: GridBounds { min_tile_center, size_in_tiles }, tiles }
    }
}

impl<T> Grid<T> {
    /// Every grid holds as many tiles as its bounds cover.
    pub fn check_tile_count(&self)
        ensures
            self.tiles_model().len() == self.bounds_model().1.0 * self.bounds_model().1.1,
    {
        proof {
            use_type_invariant(self);
        }
    }

    /// The tile at a tile center, if it lies inside the grid.
    pub fn get(&self, position: GridVector) -> (r: Option<&T>)
        requires
            tile_query_ok(self.bounds_model(), position@),
        ensures
            r matches Some(t) ==> tile_index(self.bounds_model(), position@) matches Some(i) && 0
                <= i < self.tiles_model().len() && *t == self.tiles_model()[i],
            r is None ==> tile_index(self.bounds_model(), position@) is None,
    {
        proof {
            use_type_invariant(self);
        }
        match self.bounds.index(position) {
            Some(index) => {
                proof {
                    let c = cast_coordinates(self.bounds@, position@);
                    let s = self.bounds@.1;
                    assert(c.0 + c.1 * s.0 < s.0 * s.1) by (nonlinear_arith)
                        requires
                            0 <= c.0 < s.0,
                            0 <= c.1 < s.1,
                    ;
                }
                Some(&self.tiles[index])
            },
            None => None,
        }
    }

    /// The tile at a tile center, for changing, if it lies inside the grid; the other tiles
    /// and the bounds stay as they are.
    pub fn get_mut(&mut self, position: GridVector) -> (r: Option<&mut T>)
        requires
            tile_query_ok(old(self).bounds_model(), position@),
        ensures
            final(self).bounds_model() == old(self).bounds_model(),
            r is None ==> tile_index(old(self).bounds_model(), position@) is None
                && final(self).tiles_model() == old(self).tiles_model(),
            r matches Some(t) ==> tile_index(old(self).bounds_model(), position@) matches Some(i)
                && 0 <= i < old(self).tiles_model().len() && *t == old(self).tiles_model()[i]
                && final(self).tiles_model() == old(self).tiles_model().update(i, *final(t)),
    {
        proof {
            use_type_invariant(&*self);
        }
        match self.bounds.index(position) {
            Some(index) => {
                proof {
                    let c = cast_coordinates(self.bounds@, position@);
                    let s = self.bounds@.1;
                    assert(c.0 + c.1 * s.0 < s.0 * s.1) by (nonlinear_arith)
                        requires
                            0 <= c.0 < s.0,
                            0 <= c.1 < s.1,
                    ;
                }
                Some(&mut self.tiles[index])
            },
            None => None,
        }
    }

    pub fn bounds(&self) -> (r: &GridBounds)
        ensures
            r@ == self.bounds_model(),
    {
        &self.bounds
    }

    /// Each tile with its center, in row-major order.
    pub fn iter(&self) -> (r: Vec<(GridVector, &T)>)
        requires
            forall|i: int|
                0 <= i < self.tiles_model().len() ==> tile_position_ok(self.bounds_model(), i),
        ensures
            r.len() == self.tiles_model().len(),
            forall|i: int|
                0 <= i < r.len() ==> (#[trigger] r[i]).0@ == tile_position(self.bounds_model(), i)
                    && *r[i].1 == self.tiles_model()[i],
    {
        let mut result: Vec<(GridVector, &T)> = Vec::new();
        let mut i: usize = 0;
        while i < self.tiles.len()
            invariant
                i <= self.tiles.len(),
                result.len() == i,
                forall|k: int|
                    0 <= k < self.tiles_model().len() ==> tile_position_ok(self.bounds_model(), k),
                forall|k: int|
                    0 <= k < i ==> (#[trigger] result[k]).0@ == tile_position(
                        self.bounds_model(),
                        k,
                    ) && *result[k].1 == self.tiles_model()[k],
            decreases self.tiles.len() - i,
        {
            assert(tile_position_ok(self.bounds_model(), i as int));
            result.push((self.bounds.position(i), &self.tiles[i]));
            i = i + 1;
        }
        result
    }
}

} // verus!
