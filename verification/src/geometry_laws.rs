use vstd::prelude::*;
use crate::geometry::{
    compose, flip_turns, identity_iso, invert, transform_facing, transform_point, valid_iso,
    IsoModel,
};

verus! {

/// Composition and inversion keep the rotation in `0..4`.
pub proof fn law_compose_and_invert_stay_valid(a: IsoModel, b: IsoModel)
    requires
        valid_iso(a),
        valid_iso(b),
    ensures
        valid_iso(compose(a, b)),
        valid_iso(invert(a)),
{
}

/// Transforming by `a * b` is transforming by `a`, then by `b`.
pub proof fn law_transform_by_product(p: (int, int), a: IsoModel, b: IsoModel)
    requires
        valid_iso(a),
        valid_iso(b),
    ensures
        transform_point(p, compose(a, b)) == transform_point(transform_point(p, a), b),
{
    assert(0 <= a.1 < 4 && 0 <= b.1 < 4);
    if a.1 == 0 {
    } else if a.1 == 1 {
    } else if a.1 == 2 {
    } else {
    }
}

/// Inverting twice gives back the isomorphism.
pub proof fn law_inverse_of_inverse(a: IsoModel)
    requires
        valid_iso(a),
    ensures
        invert(invert(a)) == a,
{
}

/// An isomorphism composed with its inverse, either way round, is the identity.
pub proof fn law_inverse_is_inverse(a: IsoModel)
    requires
        valid_iso(a),
    ensures
        compose(a, invert(a)) == identity_iso(),
        compose(invert(a), a) == identity_iso(),
{
}

/// The default isomorphism is an identity for composition on both sides.
pub proof fn law_identity_is_identity(a: IsoModel)
    requires
        valid_iso(a),
    ensures
        compose(a, identity_iso()) == a,
        compose(identity_iso(), a) == a,
{
}

/// Composition is associative.
pub proof fn law_composition_is_associative(a: IsoModel, b: IsoModel, c: IsoModel)
    requires
        valid_iso(a),
        valid_iso(b),
        valid_iso(c),
    ensures
        compose(compose(a, b), c) == compose(a, compose(b, c)),
{
    assert(0 <= a.1 < 4 && 0 <= b.1 < 4 && 0 <= c.1 < 4);
    if b.1 == 0 {
    } else if b.1 == 1 {
    } else if b.1 == 2 {
    } else {
    }
}

/// Transforming a point by an isomorphism and then by its inverse gives the point back.
pub proof fn law_inverse_undoes_point(p: (int, int), a: IsoModel)
    requires
        valid_iso(a),
    ensures
        transform_point(transform_point(p, a), invert(a)) == p,
{
}

/// Transforming a facing by an isomorphism and then by its inverse gives the facing back.
pub proof fn law_inverse_undoes_facing(f: int, a: IsoModel)
    requires
        valid_iso(a),
        0 <= f < 4,
    ensures
        transform_facing(transform_facing(f, a), invert(a)) == f,
{
}

/// Every isomorphism is its flip, then its rotation, then its translation.
pub proof fn law_flip_then_rotate_then_translate(a: IsoModel)
    requires
        valid_iso(a),
    ensures
        a == compose(
            compose(((0, 0), 0, a.2), ((0, 0), a.1, false)),
            (a.0, 0, false),
        ),
{
}

/// The translation of `b * a` is the translation of `b` transformed by `a`.
pub proof fn law_translation_transforms_like_vector(a: IsoModel, b: IsoModel)
    requires
        valid_iso(a),
        valid_iso(b),
    ensures
        compose(b, a).0 == transform_point(b.0, a),
{
}

} // verus!
