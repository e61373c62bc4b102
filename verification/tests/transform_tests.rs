use tracer::matrix::Matrix;
use tracer::rational::Scalar;
use tracer::transform::Transform;

fn s(n: i64, d: i64) -> Scalar {
    Scalar::new(n, d)
}

fn si(n: i64) -> Scalar {
    Scalar::new(n, 1)
}

fn column(x: i64, y: i64, w: i64) -> Matrix {
    Matrix::new(vec![vec![si(x)], vec![si(y)], vec![si(w)]])
}

#[test]
fn plane_translation_moves_points() {
    let transform = Transform::translation(si(5), si(-3));
    let p = column(-3, 4, 1);
    let moved = transform.matrix().mul(&p).unwrap();
    assert_eq!(moved, column(2, 1, 1));
}

#[test]
fn plane_translation_does_not_affect_vectors() {
    let transform = Transform::translation(si(5), si(-3));
    let v = column(-3, 4, 0);
    let moved = transform.matrix().mul(&v).unwrap();
    assert_eq!(moved, v);
}

#[test]
fn plane_inverse_translation_moves_points_back() {
    let transform = Transform::translation(si(5), si(-3));
    let inv = transform.inverse().unwrap();
    let p = column(-3, 4, 1);
    let moved = inv.matrix().mul(&p).unwrap();
    assert_eq!(moved, column(-8, 7, 1));
}

#[test]
fn plane_scaling_scales_both_axes() {
    let transform = Transform::scaling(si(2), si(3));
    let p = column(-4, 6, 1);
    let moved = transform.matrix().mul(&p).unwrap();
    assert_eq!(moved, column(-8, 18, 1));
}

#[test]
fn plane_inverse_scaling_divides() {
    let transform = Transform::scaling(si(2), si(3));
    let inv = transform.inverse().unwrap();
    let p = column(-4, 6, 1);
    let moved = inv.matrix().mul(&p).unwrap();
    let expected = Matrix::new(vec![vec![si(-2)], vec![si(2)], vec![si(1)]]);
    assert_eq!(moved, expected);
}

#[test]
fn plane_identity_leaves_columns_alone() {
    let transform = Transform::identity();
    let p = column(7, -2, 1);
    assert_eq!(transform.matrix().mul(&p).unwrap(), p);
}

#[test]
fn plane_shearing_mixes_coordinates() {
    let transform = Transform::shearing(si(1), si(0), si(0), si(0), si(0), si(0));
    let p = column(2, 3, 1);
    let moved = transform.matrix().mul(&p).unwrap();
    assert_eq!(moved, column(5, 3, 1));
}

#[test]
fn plane_rotation_by_a_quarter_turn() {
    let transform = Transform::rotation(si(0), si(1));
    let p = column(1, 0, 1);
    let moved = transform.matrix().mul(&p).unwrap();
    assert_eq!(moved, column(0, 1, 1));
}

#[test]
fn singular_plane_transform_has_no_inverse() {
    let transform = Transform::scaling(si(0), si(3));
    assert!(transform.inverse().is_none());
}

#[test]
fn composed_plane_transforms_apply_right_to_left() {
    let translation = Transform::translation(si(10), si(5));
    let scaling = Transform::scaling(si(2), si(2));
    let composed = translation.compose(&scaling).unwrap();
    let p = column(1, 1, 1);
    let moved = composed.matrix().mul(&p).unwrap();
    assert_eq!(moved, column(12, 7, 1));

    let other_order = scaling.compose(&translation).unwrap();
    let other = other_order.matrix().mul(&p).unwrap();
    assert_eq!(other, column(22, 12, 1));
}

#[test]
fn scaled_rational_entries_compose_exactly() {
    let half = Transform::scaling(s(1, 2), s(1, 3));
    let double = Transform::scaling(si(2), si(3));
    let composed = half.compose(&double).unwrap();
    let p = column(9, 9, 1);
    assert_eq!(composed.matrix().mul(&p).unwrap(), p);
}
