use vstd::prelude::*;
use crate::arith::in_i64;
use crate::flow_pattern::Number;

verus! {

/// A point or offset on the integer grid.
#[derive(Copy, Clone, PartialEq, Eq, Hash, Debug, Structural)]
pub struct Vector(pub Number, pub Number);

impl View for Vector {
    type V = (int, int);

    open spec fn view(&self) -> (int, int) {
        (self.0 as int, self.1 as int)
    }
}

/// A grid isomorphism as mathematical values: (translation, quarter turns, flip).
pub type IsoModel = ((int, int), int, bool);

/// Whether both coordinates fit in `i64`.
pub open spec fn point_in_i64(p: (int, int)) -> bool {
    in_i64(p.0) && in_i64(p.1)
}

/// The `i64` vector holding a point whose coordinates fit.
pub open spec fn vector_of(p: (int, int)) -> Vector {
    Vector(p.0 as i64, p.1 as i64)
}

/// A point turned `quarters` quarter turns from +x towards +y.
pub open spec fn rotate_point(p: (int, int), quarters: int) -> (int, int) {
    if quarters == 0 {
        p
    } else if quarters == 1 {
        (-p.1, p.0)
    } else if quarters == 2 {
        (-p.0, -p.1)
    } else {
        (p.1, -p.0)
    }
}

/// A point mirrored across the y axis when `flip` holds.
pub open spec fn flip_point(p: (int, int), flip: bool) -> (int, int) {
    if flip {
        (-p.0, p.1)
    } else {
        p
    }
}

pub open spec fn add_points(p: (int, int), q: (int, int)) -> (int, int) {
    (p.0 + q.0, p.1 + q.1)
}

/// Quarter turns mirrored: `(4 - q) % 4`.
pub open spec fn flip_turns(q: int) -> int {
    (4 - q) % 4
}

/// Where an isomorphism sends a point: flip, then rotate, then translate.
pub open spec fn transform_point(p: (int, int), iso: IsoModel) -> (int, int) {
    add_points(rotate_point(flip_point(p, iso.2), iso.1), iso.0)
}

/// Where an isomorphism sends a facing (quarter turns from +x).
pub open spec fn transform_facing(f: int, iso: IsoModel) -> int {
    ((if iso.2 {
        flip_turns(f)
    } else {
        f
    }) + iso.1) % 4
}

/// The computation of `transform_point` stays inside `i64` at every step.
pub open spec fn transform_fits(p: (int, int), iso: IsoModel) -> bool {
    &&& point_in_i64(flip_point(p, iso.2))
    &&& point_in_i64(rotate_point(flip_point(p, iso.2), iso.1))
    &&& point_in_i64(transform_point(p, iso))
}

/// The identity isomorphism.
pub open spec fn identity_iso() -> IsoModel {
    ((0, 0), 0, false)
}

/// An isomorphism with its rotation in `0..4`.
pub open spec fn valid_iso(iso: IsoModel) -> bool {
    0 <= iso.1 < 4
}

/// `a` with the mirror applied after it.
pub open spec fn flipped_iso(a: IsoModel) -> IsoModel {
    ((-a.0.0, a.0.1), flip_turns(a.1), !a.2)
}

/// `a` followed by `b`.
pub open spec fn compose(a: IsoModel, b: IsoModel) -> IsoModel {
    let a1 = if b.2 {
        flipped_iso(a)
    } else {
        a
    };
    (add_points(rotate_point(a1.0, b.1), b.0), (a1.1 + b.1) % 4, a1.2)
}

/// The computation of `compose` stays inside `i64` at every step.
pub open spec fn compose_fits(a: IsoModel, b: IsoModel) -> bool {
    let a1 = if b.2 {
        flipped_iso(a)
    } else {
        a
    };
    &&& point_in_i64(a1.0)
    &&& point_in_i64(rotate_point(a1.0, b.1))
    &&& point_in_i64(compose(a, b).0)
}

/// The inverse isomorphism.
pub open spec fn invert(a: IsoModel) -> IsoModel {
    let t = rotate_point((-a.0.0, -a.0.1), flip_turns(a.1));
    if a.2 {
        ((-t.0, t.1), a.1, a.2)
    } else {
        (t, flip_turns(a.1), a.2)
    }
}

/// The computation of `invert` stays inside `i64` at every step.
pub open spec fn invert_fits(a: IsoModel) -> bool {
    let t = rotate_point((-a.0.0, -a.0.1), flip_turns(a.1));
    &&& point_in_i64((-a.0.0, -a.0.1))
    &&& point_in_i64(t)
    &&& point_in_i64(invert(a).0)
}

impl Vector {
    pub fn new(x: Number, y: Number) -> (v: Vector)
        ensures
            v@ == (x as int, y as int),
    {
        Vector(x, y)
    }

    /// The facing this vector points along exactly, if it lies on an axis.
    pub fn exact_facing(&self) -> (r: Option<Facing>)
        ensures
            r matches Some(f) ==> f@ == exact_facing_of(self@).unwrap(),
            r is None <==> exact_facing_of(self@) is None,
    {
        if self.0 > 0 && self.1 == 0 {
            Some(Facing(0))
        } else if self.0 == 0 && self.1 > 0 {
            Some(Facing(1))
        } else if self.0 < 0 && self.1 == 0 {
            Some(Facing(2))
        } else if self.0 == 0 && self.1 < 0 {
            Some(Facing(3))
        } else {
            None
        }
    }

    /// The facing whose quadrant strictly contains this vector, if any.
    pub fn closest_facing(&self) -> (r: Option<Facing>)
        requires
            self.0 != i64::MIN,
            self.1 != i64::MIN,
        ensures
            r matches Some(f) ==> f@ == closest_facing_of(self@).unwrap(),
            r is None <==> closest_facing_of(self@) is None,
    {
        let abs_x = if self.0 < 0 {
            -self.0
        } else {
            self.0
        };
        let abs_y = if self.1 < 0 {
            -self.1
        } else {
            self.1
        };
        if self.0 > abs_y {
            Some(Facing(0))
        } else if self.1 > abs_x {
            Some(Facing(1))
        } else if -self.0 > abs_y {
            Some(Facing(2))
        } else if -self.1 > abs_x {
            Some(Facing(3))
        } else {
            None
        }
    }

    pub(crate) fn plus(self, other: Vector) -> (r: Vector)
        requires
            point_in_i64(add_points(self@, other@)),
        ensures
            r@ == add_points(self@, other@),
    {
        Vector(self.0 + other.0, self.1 + other.1)
    }
}

pub open spec fn abs_int(x: int) -> int {
    if x < 0 {
        -x
    } else {
        x
    }
}

/// The facing of a point on an axis (not the origin).
pub open spec fn exact_facing_of(p: (int, int)) -> Option<int> {
    if p.0 > 0 && p.1 == 0 {
        Some(0)
    } else if p.0 == 0 && p.1 > 0 {
        Some(1)
    } else if p.0 < 0 && p.1 == 0 {
        Some(2)
    } else if p.0 == 0 && p.1 < 0 {
        Some(3)
    } else {
        None
    }
}

/// The facing whose open quadrant holds the point; none on the diagonals.
pub open spec fn closest_facing_of(p: (int, int)) -> Option<int> {
    if p.0 > abs_int(p.1) {
        Some(0)
    } else if p.1 > abs_int(p.0) {
        Some(1)
    } else if -p.0 > abs_int(p.1) {
        Some(2)
    } else if -p.1 > abs_int(p.0) {
        Some(3)
    } else {
        None
    }
}

/// A turn by a whole number of quarter turns.
#[derive(Copy, Clone, PartialEq, Eq, Hash, Debug, Structural)]
pub struct Rotation(u8);

/// One of the four axis directions.
#[derive(Copy, Clone, PartialEq, Eq, Hash, Debug, Structural)]
pub struct Facing(u8);

impl Rotation {
    #[verifier::type_invariant]
    spec fn quarter_turns_below_four(self) -> bool {
        self.0 < 4
    }
}

impl Facing {
    #[verifier::type_invariant]
    spec fn index_below_four(self) -> bool {
        self.0 < 4
    }
}

impl View for Rotation {
    type V = int;

    closed spec fn view(&self) -> int {
        self.0 as int
    }
}

impl View for Facing {
    type V = int;

    closed spec fn view(&self) -> int {
        self.0 as int
    }
}

impl Default for Rotation {
    fn default() -> (r: Rotation)
        ensures
            r@ == 0,
    {
        Rotation(0)
    }
}

impl Default for Facing {
    fn default() -> (r: Facing)
        ensures
            r@ == 0,
    {
        Facing(0)
    }
}

impl Rotation {
    /// The rotation of `quarter_turns` quarter turns from +x towards +y.
    pub fn new(quarter_turns: u8) -> (r: Rotation)
        requires
            quarter_turns < 4,
        ensures
            r@ == quarter_turns,
    {
        Rotation(quarter_turns)
    }

    /// The mirror image of this rotation.
    fn canonical_flip(self) -> (r: Rotation)
        ensures
            r@ == flip_turns(self@),
    {
        proof {
            use_type_invariant(&self);
        }
        Rotation((4 - self.0) % 4)
    }

    pub fn quarter_turns_from_posx_towards_posy(self) -> (r: u8)
        ensures
            r == self@,
            r < 4,
    {
        proof {
            use_type_invariant(&self);
        }
        self.0
    }
}

impl Facing {
    /// The facing `index` quarter turns from +x towards +y.
    pub fn new(index: u8) -> (f: Facing)
        requires
            index < 4,
        ensures
            f@ == index,
    {
        Facing(index)
    }

    pub fn quarter_turns_from_posx_towards_posy(self) -> (r: u8)
        ensures
            r == self@,
            r < 4,
    {
        proof {
            use_type_invariant(&self);
        }
        self.0
    }

    /// The mirror image of this facing.
    fn canonical_flip(self) -> (r: Facing)
        ensures
            r@ == flip_turns(self@),
    {
        proof {
            use_type_invariant(&self);
        }
        Facing((4 - self.0) % 4)
    }

    /// The unit vector pointing along this facing.
    pub fn unit_vector(self) -> (v: Vector)
        ensures
            v@ == rotate_point((1, 0), self@),
    {
        proof {
            use_type_invariant(&self);
        }
        Vector::new(1, 0).rotate_90(self.0)
    }

    /// The rotation that turns `other` into `self`.
    pub fn minus(self, other: Facing) -> (r: Rotation)
        ensures
            r@ == (4 + self@ - other@) % 4,
    {
        proof {
            use_type_invariant(&self);
            use_type_invariant(&other);
        }
        Rotation((4 + self.0 - other.0) % 4)
    }
}

/// Things that turn by quarter turns.
pub trait Rotate: Sized {
    /// Whether turning by `quarters` is defined and stays in range.
    spec fn rotate_ok(&self, quarters: int) -> bool;

    /// The value turned by `quarters` quarter turns.
    spec fn rotated(&self, quarters: int) -> Self;

    fn rotate(self, rotation: Rotation) -> (r: Self)
        requires
            self.rotate_ok(rotation@),
        ensures
            r == self.rotated(rotation@),
    {
        let quarters = rotation.quarter_turns_from_posx_towards_posy();
        self.rotate_90(quarters)
    }

    fn rotate_90(self, quarters: u8) -> (r: Self)
        requires
            self.rotate_ok(quarters as int),
        ensures
            r == self.rotated(quarters as int),
    ;
}

impl Rotate for Vector {
    open spec fn rotate_ok(&self, quarters: int) -> bool {
        0 <= quarters < 4 && point_in_i64(rotate_point(self@, quarters))
    }

    open spec fn rotated(&self, quarters: int) -> Vector {
        vector_of(rotate_point(self@, quarters))
    }

    fn rotate_90(self, quarters: u8) -> (r: Vector) {
        match quarters {
            0 => self,
            1 => Vector(-self.1, self.0),
            2 => Vector(-self.0, -self.1),
            _ => Vector(self.1, -self.0),
        }
    }
}

impl Rotate for Rotation {
    open spec fn rotate_ok(&self, quarters: int) -> bool {
        0 <= quarters && self@ + quarters <= 255
    }

    closed spec fn rotated(&self, quarters: int) -> Rotation {
        Rotation(((self@ + quarters) % 4) as u8)
    }

    fn rotate_90(self, quarters: u8) -> (r: Rotation) {
        Rotation((self.0 + quarters) % 4)
    }
}

impl Rotate for Facing {
    open spec fn rotate_ok(&self, quarters: int) -> bool {
        0 <= quarters && self@ + quarters <= 255
    }

    closed spec fn rotated(&self, quarters: int) -> Facing {
        Facing(((self@ + quarters) % 4) as u8)
    }

    fn rotate_90(self, quarters: u8) -> (r: Facing) {
        Facing((self.0 + quarters) % 4)
    }
}

impl Rotation {
    /// What `rotated` means for a rotation.
    pub proof fn lemma_rotated(&self, quarters: int)
        requires
            self.rotate_ok(quarters),
        ensures
            self.rotated(quarters)@ == (self@ + quarters) % 4,
    {
    }
}

impl Facing {
    /// What `rotated` means for a facing.
    pub proof fn lemma_rotated(&self, quarters: int)
        requires
            self.rotate_ok(quarters),
        ensures
            self.rotated(quarters)@ == (self@ + quarters) % 4,
    {
    }
}


/// An isometry of the grid: flip across the y axis (if `flip`), then rotate, then translate.
#[derive(Copy, Clone, PartialEq, Eq, Hash, Debug, Structural)]
pub struct GridIsomorphism {
    pub translation: Vector,
    pub rotation: Rotation,
    pub flip: bool,
}

impl View for GridIsomorphism {
    type V = IsoModel;

    open spec fn view(&self) -> IsoModel {
        (self.translation@, self.rotation@, self.flip)
    }
}

impl Default for GridIsomorphism {
    fn default() -> (r: GridIsomorphism)
        ensures
            r@ == identity_iso(),
    {
        GridIsomorphism { translation: Vector(0, 0), rotation: Rotation(0), flip: false }
    }
}

/// Things that an isomorphism of the grid carries along.
pub trait TransformedBy: Sized {
    /// Whether transforming is defined and stays in range.
    spec fn transform_ok(&self, isomorphism: GridIsomorphism) -> bool;

    /// The transformed value.
    spec fn transformed(&self, isomorphism: GridIsomorphism) -> Self;

    fn transformed_by(self, isomorphism: GridIsomorphism) -> (r: Self)
        requires
            self.transform_ok(isomorphism),
        ensures
            r == self.transformed(isomorphism),
    ;
}

impl TransformedBy for Vector {
    open spec fn transform_ok(&self, isomorphism: GridIsomorphism) -> bool {
        transform_fits(self@, isomorphism@)
    }

    open spec fn transformed(&self, isomorphism: GridIsomorphism) -> Vector {
        vector_of(transform_point(self@, isomorphism@))
    }

    fn transformed_by(self, isomorphism: GridIsomorphism) -> (r: Vector) {
        proof {
            use_type_invariant(&isomorphism.rotation);
        }
        let mut v = self;
        if isomorphism.flip {
            assert(point_in_i64(flip_point(self@, isomorphism.flip)));
            v.0 = -v.0;
        }
        assert(v@ == flip_point(self@, isomorphism.flip));
        v = v.rotate(isomorphism.rotation);
        v.plus(isomorphism.translation)
    }
}

impl TransformedBy for Facing {
    open spec fn transform_ok(&self, isomorphism: GridIsomorphism) -> bool {
        true
    }

    closed spec fn transformed(&self, isomorphism: GridIsomorphism) -> Facing {
        Facing(transform_facing(self@, isomorphism@) as u8)
    }

    fn transformed_by(self, isomorphism: GridIsomorphism) -> (r: Facing) {
        proof {
            use_type_invariant(&self);
            use_type_invariant(&isomorphism.rotation);
        }
        let mut f = self;
        if isomorphism.flip {
            f = f.canonical_flip();
        }
        proof {
            use_type_invariant(&f);
        }
        f.rotate(isomorphism.rotation)
    }
}

impl Facing {
    /// What `transformed` means for a facing.
    pub proof fn lemma_transformed(&self, isomorphism: GridIsomorphism)
        ensures
            self.transformed(isomorphism)@ == transform_facing(self@, isomorphism@),
    {
        assert(0 <= transform_facing(self@, isomorphism@) < 4);
    }
}

impl GridIsomorphism {
    /// The isomorphism that undoes this one.
    pub fn inverse(self) -> (r: GridIsomorphism)
        requires
            invert_fits(self@),
        ensures
            r@ == invert(self@),
    {
        let mut result = self;
        proof {
            use_type_invariant(&self.rotation);
        }
        let negated = Vector(-self.translation.0, -self.translation.1);
        result.translation = negated.rotate(self.rotation.canonical_flip());
        assert(result.translation@ == rotate_point((-self@.0.0, -self@.0.1), flip_turns(self@.1)));
        if self.flip {
            assert(in_i64(-result.translation.0));
            result.translation.0 = -result.translation.0;
        } else {
            result.rotation = self.rotation.canonical_flip();
        }
        result
    }

    /// This isomorphism with its rotation replaced so that it turns facing `from` into `to`.
    pub fn with_rotation_changed_to_make_facing_transform_to(self, from: Facing, to: Facing) -> (r:
        GridIsomorphism)
        ensures
            r@ == (self@.0, (4 + to@ - transform_facing(from@, (self@.0, 0int, self@.2))) % 4, self@.2),
    {
        let mut result = self;
        result.rotation = Rotation(0);
        let from_flipped = from.transformed_by(result);
        proof {
            from.lemma_transformed(result);
        }
        result.rotation = to.minus(from_flipped);
        result
    }

    /// `self` followed by `other`.
    fn followed_by(self, other: GridIsomorphism) -> (r: GridIsomorphism)
        requires
            compose_fits(self@, other@),
        ensures
            r@ == compose(self@, other@),
    {
        proof {
            use_type_invariant(&self.rotation);
            use_type_invariant(&other.rotation);
        }
        let mut result = self;
        assert(point_in_i64(if other.flip { flipped_iso(self@).0 } else { self@.0 }));
        if other.flip {
            assert(in_i64(-self.translation.0));
            result.translation.0 = -result.translation.0;
            result.rotation = result.rotation.canonical_flip();
            result.flip = !result.flip;
        }
        proof {
            use_type_invariant(&result.rotation);
        }
        result.translation = result.translation.rotate(other.rotation);
        result.rotation = result.rotation.rotate(other.rotation);
        proof {
            result.rotation.lemma_rotated(other.rotation@);
        }
        result.translation = result.translation.plus(other.translation);
        result
    }
}

impl std::ops::Mul<GridIsomorphism> for GridIsomorphism {
    type Output = GridIsomorphism;

    fn mul(self, other: GridIsomorphism) -> (r: GridIsomorphism) {
        self.followed_by(other)
    }
}

impl vstd::std_specs::ops::MulSpecImpl<GridIsomorphism> for GridIsomorphism {
    open spec fn obeys_mul_spec() -> bool {
        true
    }

    open spec fn mul_req(self, other: GridIsomorphism) -> bool {
        compose_fits(self@, other@)
    }

    closed spec fn mul_spec(self, other: GridIsomorphism) -> GridIsomorphism {
        let m = compose(self@, other@);
        GridIsomorphism { translation: vector_of(m.0), rotation: Rotation(m.1 as u8), flip: m.2 }
    }
}

impl std::ops::Div<GridIsomorphism> for GridIsomorphism {
    type Output = GridIsomorphism;

    fn div(self, other: GridIsomorphism) -> (r: GridIsomorphism) {
        self.followed_by(other.inverse())
    }
}

impl vstd::std_specs::ops::DivSpecImpl<GridIsomorphism> for GridIsomorphism {
    open spec fn obeys_div_spec() -> bool {
        true
    }

    open spec fn div_req(self, other: GridIsomorphism) -> bool {
        invert_fits(other@) && compose_fits(self@, invert(other@))
    }

    closed spec fn div_spec(self, other: GridIsomorphism) -> GridIsomorphism {
        let m = compose(self@, invert(other@));
        GridIsomorphism { translation: vector_of(m.0), rotation: Rotation(m.1 as u8), flip: m.2 }
    }
}

impl GridIsomorphism {
    /// What `self * other` computes.
    pub proof fn lemma_mul_spec(self, other: GridIsomorphism)
        requires
            compose_fits(self@, other@),
            valid_iso(self@),
            valid_iso(other@),
        ensures
            vstd::std_specs::ops::MulSpec::mul_spec(self, other)@ == compose(self@, other@),
    {
    }

    /// What `self / other` computes.
    pub proof fn lemma_div_spec(self, other: GridIsomorphism)
        requires
            invert_fits(other@),
            compose_fits(self@, invert(other@)),
            valid_iso(self@),
            valid_iso(other@),
        ensures
            vstd::std_specs::ops::DivSpec::div_spec(self, other)@ == compose(self@, invert(other@)),
    {
    }
}

} // verus!
