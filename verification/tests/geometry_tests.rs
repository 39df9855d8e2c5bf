use web_games::geometry::{Facing, GridIsomorphism, Rotate, Rotation, TransformedBy, Vector};

fn iso(x: i64, y: i64, quarters: u8, flip: bool) -> GridIsomorphism {
    GridIsomorphism { translation: Vector::new(x, y), rotation: Rotation::new(quarters), flip }
}

#[test]
fn grid_isomorphism_unit_tests() {
    let isomorphism = GridIsomorphism {
        translation: Vector::new(5, 4),
        rotation: Rotation::new(1),
        flip: true,
    };
    let vector = Vector::new(2, 1);

    assert_eq!(vector.transformed_by(isomorphism), Vector::new(4, 2));
}

#[test]
fn inverse_has_exact_value_and_undoes_the_transform() {
    let isomorphism = iso(5, 4, 1, true);
    let inverse = isomorphism.inverse();
    assert_eq!(inverse, iso(4, 5, 1, true));
    assert_eq!(Vector::new(4, 2).transformed_by(inverse), Vector::new(2, 1));
    assert_eq!(inverse.inverse(), isomorphism);
}

#[test]
fn inverse_of_unflipped_isomorphism() {
    let a = iso(1, 2, 3, false);
    assert_eq!(a.inverse(), iso(2, -1, 1, false));
    assert_eq!(a * a.inverse(), GridIsomorphism::default());
    assert_eq!(a.inverse() * a, GridIsomorphism::default());
}

#[test]
fn product_transforms_like_applying_in_turn() {
    let a = iso(1, 2, 3, false);
    let b = iso(-3, 7, 1, true);
    let product = a * b;
    assert_eq!(product, iso(-5, 6, 2, true));
    let v = Vector::new(6, -2);
    assert_eq!(v.transformed_by(product), Vector::new(1, 8));
    assert_eq!(v.transformed_by(a).transformed_by(b), v.transformed_by(product));
}

#[test]
fn product_is_associative_on_an_example() {
    let a = iso(1, 2, 3, false);
    let b = iso(-3, 7, 1, true);
    let c = iso(10, -5, 2, false);
    assert_eq!((a * b) * c, iso(15, -11, 0, true));
    assert_eq!((a * b) * c, a * (b * c));
}

#[test]
fn identity_is_identity_on_an_example() {
    let b = iso(-3, 7, 1, true);
    assert_eq!(b * GridIsomorphism::default(), b);
    assert_eq!(GridIsomorphism::default() * b, b);
    assert_eq!(b * b.inverse(), GridIsomorphism::default());
}

#[test]
fn flip_then_rotate_then_translate_on_an_example() {
    let b = iso(-3, 7, 1, true);
    let flip = GridIsomorphism { flip: true, ..Default::default() };
    let rotation = GridIsomorphism { rotation: Rotation::new(1), ..Default::default() };
    let translation = GridIsomorphism { translation: Vector::new(-3, 7), ..Default::default() };
    assert_eq!(flip * rotation * translation, b);
}

#[test]
fn translation_transforms_like_a_vector_on_an_example() {
    let a = iso(1, 2, 3, false);
    let b = iso(-3, 7, 1, true);
    assert_eq!((a * b).translation, a.translation.transformed_by(b));
}

#[test]
fn facing_transform_and_inverse() {
    let isomorphism = iso(5, 4, 1, true);
    let facing = Facing::new(1);
    let moved = facing.transformed_by(isomorphism);
    assert_eq!(moved, Facing::new(0));
    assert_eq!(moved.transformed_by(isomorphism.inverse()), facing);
}

#[test]
fn division_is_product_with_inverse() {
    let a = iso(1, 2, 3, false);
    let b = iso(-3, 7, 1, true);
    assert_eq!(a / b, a * b.inverse());
    assert_eq!((a / b) * b, a);
}

#[test]
fn rotations_and_facings() {
    assert_eq!(Vector::new(3, 1).rotate_90(1), Vector::new(-1, 3));
    assert_eq!(Vector::new(3, 1).rotate(Rotation::new(2)), Vector::new(-3, -1));
    assert_eq!(Facing::new(3).rotate_90(2), Facing::new(1));
    assert_eq!(Facing::new(2).unit_vector(), Vector::new(-1, 0));
    assert_eq!(Facing::new(0).minus(Facing::new(3)).quarter_turns_from_posx_towards_posy(), 1);
    assert_eq!(Rotation::new(3).rotate_90(3).quarter_turns_from_posx_towards_posy(), 2);
}

#[test]
fn exact_and_closest_facings() {
    assert_eq!(Vector::new(0, 5).exact_facing(), Some(Facing::new(1)));
    assert_eq!(Vector::new(1, 5).exact_facing(), None);
    assert_eq!(Vector::new(-7, 3).closest_facing(), Some(Facing::new(2)));
    assert_eq!(Vector::new(2, -3).closest_facing(), Some(Facing::new(3)));
    assert_eq!(Vector::new(3, 3).closest_facing(), None);
    assert_eq!(Vector::new(0, 0).closest_facing(), None);
}

#[test]
fn rotation_changed_to_make_facing_transform() {
    let isomorphism = iso(5, 4, 3, true);
    let from = Facing::new(1);
    let to = Facing::new(2);
    let changed = isomorphism.with_rotation_changed_to_make_facing_transform_to(from, to);
    assert_eq!(from.transformed_by(changed), to);
    assert_eq!(changed.translation, Vector::new(5, 4));
    assert!(changed.flip);
}
