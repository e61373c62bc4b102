use tracer::matrix::Matrix;
use tracer::rational::Scalar;
use tracer::tuple::Tuple;

fn s(n: i64, d: i64) -> Scalar {
    Scalar::new(n, d)
}

fn si(n: i64) -> Scalar {
    Scalar::new(n, 1)
}

fn m2x3(a: [i64; 3], b: [i64; 3]) -> Matrix {
    Matrix::new(vec![
        vec![si(a[0]), si(a[1]), si(a[2])],
        vec![si(b[0]), si(b[1]), si(b[2])],
    ])
}

fn m3(a: [i64; 3], b: [i64; 3], c: [i64; 3]) -> Matrix {
    Matrix::new(vec![
        vec![si(a[0]), si(a[1]), si(a[2])],
        vec![si(b[0]), si(b[1]), si(b[2])],
        vec![si(c[0]), si(c[1]), si(c[2])],
    ])
}

fn pt(x: i64, y: i64, z: i64) -> Tuple {
    Tuple::point(si(x), si(y), si(z))
}

fn vec3(x: i64, y: i64, z: i64) -> Tuple {
    Tuple::vector(si(x), si(y), si(z))
}

#[test]
fn matrix_addition() {
    let matrix1 = m2x3([1, 2, 3], [4, 5, 6]);
    let matrix2 = m2x3([7, 8, 9], [10, 11, 12]);
    let matrix3 = m2x3([8, 10, 12], [14, 16, 18]);
    assert_eq!(matrix1.add(&matrix2).unwrap(), matrix3);
}

#[test]
fn matrix_subtraction() {
    let matrix1 = m2x3([1, 2, 3], [4, 5, 6]);
    let matrix2 = m2x3([7, 8, 9], [10, 11, 12]);
    let matrix3 = m2x3([-6, -6, -6], [-6, -6, -6]);
    assert_eq!(matrix1.sub(&matrix2).unwrap(), matrix3);
}

#[test]
fn identity_matrix() {
    let matrix1 = Matrix::identity(4);
    let matrix2 = Matrix::new(vec![
        vec![si(1), si(0), si(0), si(0)],
        vec![si(0), si(1), si(0), si(0)],
        vec![si(0), si(0), si(1), si(0)],
        vec![si(0), si(0), si(0), si(1)],
    ]);
    assert_eq!(matrix1, matrix2);
}

#[test]
fn transpose_matrix() {
    let matrix1 = m2x3([1, 2, 3], [4, 5, 6]);
    let matrix2 = Matrix::new(vec![
        vec![si(1), si(4)],
        vec![si(2), si(5)],
        vec![si(3), si(6)],
    ]);
    assert_eq!(matrix1.transpose(), matrix2);
}

#[test]
fn determinant_matrix() {
    let matrix1 = m3([1, 2, 3], [4, 5, 6], [7, 8, 9]);
    assert_eq!(matrix1.determinant().unwrap(), si(0));
}

#[test]
fn submatrix_matrix() {
    let matrix1 = m3([1, 2, 3], [4, 5, 6], [7, 8, 9]);
    let matrix2 = Matrix::new(vec![vec![si(1), si(3)], vec![si(7), si(9)]]);
    assert_eq!(matrix1.submatrix(1, 1), matrix2);
}

#[test]
fn minor_matrix() {
    let matrix1 = m3([3, 5, 0], [2, -1, -7], [6, -1, 5]);
    let matrix2 = matrix1.submatrix(1, 0);
    assert_eq!(matrix2.determinant().unwrap(), si(25));
    assert_eq!(matrix1.minor(1, 0).unwrap(), si(25));
}

#[test]
fn cofactor_matrix() {
    let matrix1 = m3([3, 5, 0], [2, -1, -7], [6, -1, 5]);
    assert_eq!(matrix1.cofactor(0, 0).unwrap(), si(-12));
}

#[test]
fn cofactor_matrix_2() {
    let matrix1 = m3([3, 5, 0], [2, -1, -7], [6, -1, 5]);
    assert_eq!(matrix1.cofactor(1, 0).unwrap(), si(-25));
}

#[test]
fn inverse_matrix() {
    let a = Matrix::new(vec![vec![si(1), si(2)], vec![si(3), si(4)]]);
    let expected = Matrix::new(vec![vec![si(-2), si(1)], vec![s(3, 2), s(-1, 2)]]);
    assert_eq!(a.inverse(), Some(expected));

    let b = m3([1, 2, 3], [4, 5, 6], [7, 8, 9]);
    assert_eq!(b.inverse(), None);
}

#[test]
fn translation_matrix() {
    let point = pt(1, 2, 3);
    let translation = Matrix::translation(si(2), si(3), si(4));
    let expected = pt(3, 5, 7);
    let transformed_point = translation.mul_tuple(&point).unwrap();
    assert_eq!(expected, transformed_point);
}

#[test]
fn vector_translation() {
    let vector = vec3(1, 2, 3);
    let translation = Matrix::translation(si(2), si(3), si(4));
    let transformed_vector = translation.mul_tuple(&vector).unwrap();
    assert_eq!(vector, transformed_vector);
}

#[test]
fn point_scaling() {
    let point = pt(-4, 6, 8);
    let scaling_matrix = Matrix::scaling(si(2), si(3), si(4));
    let expected = pt(-8, 18, 32);
    assert_eq!(scaling_matrix.mul_tuple(&point).unwrap(), expected);
}

#[test]
fn vector_scaling() {
    let vector = vec3(1, 2, 3);
    let scaling_matrix = Matrix::scaling(si(2), si(3), si(4));
    let expected = vec3(2, 6, 12);
    assert_eq!(scaling_matrix.mul_tuple(&vector).unwrap(), expected);
}

#[test]
fn vector_inverse_scaling() {
    let vector = vec3(-4, 6, 8);
    let scaling_matrix = Matrix::scaling(si(2), si(3), si(4));
    let inverted_matrix = scaling_matrix.inverse().unwrap();
    let expected = vec3(-2, 2, 2);
    assert_eq!(inverted_matrix.mul_tuple(&vector).unwrap(), expected);
}

#[test]
fn reflection() {
    let point = pt(1, 2, 3);
    let scaling_matrix = Matrix::scaling(si(-1), si(1), si(1));
    let expected = pt(-1, 2, 3);
    assert_eq!(scaling_matrix.mul_tuple(&point).unwrap(), expected);
}

// An eighth of a turn, as an exact point on the unit circle close to the
// cosine and sine of pi over four.
fn cos_eighth() -> Scalar {
    s(23661, 33461)
}

fn sin_eighth() -> Scalar {
    s(23660, 33461)
}

#[test]
fn rotation_x_point() {
    let point = pt(0, 1, 0);
    let half_quarter = Matrix::rotation_x(cos_eighth(), sin_eighth());
    let full_quarter = Matrix::rotation_x(si(0), si(1));
    let expected_half_quarter = Tuple::point(si(0), cos_eighth(), sin_eighth());
    let expected_full_quarter = pt(0, 0, 1);
    assert_eq!(half_quarter.mul_tuple(&point).unwrap(), expected_half_quarter);
    assert_eq!(full_quarter.mul_tuple(&point).unwrap(), expected_full_quarter);
}

#[test]
fn rotation_x_inverse() {
    let point = pt(0, 1, 0);
    let half_quarter = Matrix::rotation_x(cos_eighth(), sin_eighth());
    let inverted_matrix = half_quarter.inverse().unwrap();
    let expected = Tuple::point(si(0), cos_eighth(), sin_eighth().neg());
    assert_eq!(inverted_matrix.mul_tuple(&point).unwrap(), expected);
}

#[test]
fn rotation_y_point() {
    let point = pt(0, 0, 1);
    let half_quarter = Matrix::rotation_y(cos_eighth(), sin_eighth());
    let full_quarter = Matrix::rotation_y(si(0), si(1));
    let expected_half_quarter = Tuple::point(sin_eighth(), si(0), cos_eighth());
    let expected_full_quarter = pt(1, 0, 0);
    assert_eq!(half_quarter.mul_tuple(&point).unwrap(), expected_half_quarter);
    assert_eq!(full_quarter.mul_tuple(&point).unwrap(), expected_full_quarter);
}

#[test]
fn rotation_z_point() {
    let point = pt(0, 1, 0);
    let half_quarter = Matrix::rotation_z(cos_eighth(), sin_eighth());
    let full_quarter = Matrix::rotation_z(si(0), si(1));
    let expected_half_quarter = Tuple::point(sin_eighth().neg(), cos_eighth(), si(0));
    let expected_full_quarter = pt(-1, 0, 0);
    assert_eq!(half_quarter.mul_tuple(&point).unwrap(), expected_half_quarter);
    assert_eq!(full_quarter.mul_tuple(&point).unwrap(), expected_full_quarter);
}

#[test]
fn shearing_x_in_proportion_to_y() {
    let point = pt(2, 3, 4);
    let shear_matrix = Matrix::shearing(si(1), si(0), si(0), si(0), si(0), si(0));
    let expected = pt(5, 3, 4);
    assert_eq!(shear_matrix.mul_tuple(&point).unwrap(), expected);
}

#[test]
fn individual_transformations_applied_in_sequence() {
    let point = pt(1, 0, 1);
    let rotation = Matrix::rotation_x(si(0), si(1));
    let p2 = rotation.mul_tuple(&point).unwrap();
    assert_eq!(p2, pt(1, -1, 0));
    let scaling = Matrix::scaling(si(5), si(5), si(5));
    let p3 = scaling.mul_tuple(&p2).unwrap();
    assert_eq!(p3, pt(5, -5, 0));
    let translation = Matrix::translation(si(10), si(5), si(7));
    let p4 = translation.mul_tuple(&p3).unwrap();
    assert_eq!(p4, pt(15, 0, 7));
}

#[test]
fn chained_transformations_applied_in_reverse_order() {
    let point = pt(1, 0, 1);
    let rotation = Matrix::rotation_x(si(0), si(1));
    let scaling = Matrix::scaling(si(5), si(5), si(5));
    let translation = Matrix::translation(si(10), si(5), si(7));
    let transform = translation.mul(&scaling).unwrap().mul(&rotation).unwrap();
    assert_eq!(transform.mul_tuple(&point).unwrap(), pt(15, 0, 7));
}

#[test]
fn multiplying_by_the_identity_preserves_a_matrix() {
    let m = m3([3, -9, 7], [3, -8, 2], [-4, 4, 4]);
    let id3 = Matrix::identity(3);
    assert_eq!(m.mul(&id3).unwrap(), m);
    assert_eq!(id3.mul(&m).unwrap(), m);
}

#[test]
fn transposing_twice_restores_a_matrix() {
    let m = m2x3([1, 2, 3], [4, 5, 6]);
    assert_eq!(m.transpose().transpose(), m);
}

#[test]
fn multiplying_by_the_inverse_yields_the_identity() {
    let a = m3([3, -9, 7], [3, -8, 2], [-4, 4, 4]);
    let inv = a.inverse().unwrap();
    assert_eq!(a.mul(&inv).unwrap(), Matrix::identity(3));

    let r = Matrix::rotation_z(cos_eighth(), sin_eighth());
    let rinv = r.inverse().unwrap();
    assert_eq!(r.mul(&rinv).unwrap(), Matrix::identity(4));
}

#[test]
fn determinant_of_a_four_by_four_matrix() {
    let m = Matrix::new(vec![
        vec![si(-2), si(-8), si(3), si(5)],
        vec![si(-3), si(1), si(7), si(3)],
        vec![si(1), si(2), si(-9), si(6)],
        vec![si(-6), si(7), si(7), si(-9)],
    ]);
    assert_eq!(m.determinant().unwrap(), si(-4071));
}

#[test]
fn matrices_within_the_tolerance_compare_equal() {
    let a = Matrix::new(vec![vec![si(1), si(2)], vec![si(3), si(4)]]);
    let close = Matrix::new(vec![
        vec![s(2000000001, 2000000000), si(2)],
        vec![si(3), si(4)],
    ]);
    let far = Matrix::new(vec![
        vec![s(100000001, 100000000), si(2)],
        vec![si(3), si(4)],
    ]);
    assert_eq!(a, close);
    assert_ne!(a, far);
}

#[test]
fn is_invertible_tests_the_determinant() {
    let singular = m3([1, 2, 3], [4, 5, 6], [7, 8, 9]);
    assert_eq!(singular.is_invertible(), Some(false));
    let regular = Matrix::new(vec![vec![si(1), si(2)], vec![si(3), si(4)]]);
    assert_eq!(regular.is_invertible(), Some(true));
}
