use tracer::rational::Scalar;
use tracer::tuple::Tuple;

#[test]
fn tuple_with_w1_is_point() {
    let a = Tuple::new(
        Scalar::new(43, 10),
        Scalar::new(-21, 5),
        Scalar::new(31, 10),
        Scalar::new(1, 1),
    );
    assert_eq!(a.is_point(), true);
}

#[test]
fn tuple_with_w0_is_vector() {
    let a = Tuple::new(
        Scalar::new(43, 10),
        Scalar::new(-21, 5),
        Scalar::new(31, 10),
        Scalar::new(0, 1),
    );
    assert_eq!(a.is_vector(), true);
}

#[test]
fn point_creates_tuples_with_w1() {
    let p = Tuple::point(Scalar::new(4, 1), Scalar::new(-4, 1), Scalar::new(3, 1));
    assert_eq!(
        p,
        Tuple::new(
            Scalar::new(4, 1),
            Scalar::new(-4, 1),
            Scalar::new(3, 1),
            Scalar::new(1, 1),
        )
    );
}

#[test]
fn vector_creates_tuples_with_w0() {
    let v = Tuple::vector(Scalar::new(4, 1), Scalar::new(-4, 1), Scalar::new(3, 1));
    assert_eq!(
        v,
        Tuple::new(
            Scalar::new(4, 1),
            Scalar::new(-4, 1),
            Scalar::new(3, 1),
            Scalar::new(0, 1),
        )
    );
}

#[test]
fn adding_two_tuples() {
    let a1 = Tuple::new(
        Scalar::new(3, 1),
        Scalar::new(-2, 1),
        Scalar::new(5, 1),
        Scalar::new(1, 1),
    );
    let a2 = Tuple::new(
        Scalar::new(-2, 1),
        Scalar::new(3, 1),
        Scalar::new(1, 1),
        Scalar::new(0, 1),
    );
    assert_eq!(
        a1.add(&a2).unwrap(),
        Tuple::new(
            Scalar::new(1, 1),
            Scalar::new(1, 1),
            Scalar::new(6, 1),
            Scalar::new(1, 1),
        )
    );
}

#[test]
fn adding_two_vectors() {
    let a1 = Tuple::vector(Scalar::new(3, 1), Scalar::new(-2, 1), Scalar::new(5, 1));
    let a2 = Tuple::vector(Scalar::new(-2, 1), Scalar::new(3, 1), Scalar::new(1, 1));
    assert_eq!(
        a1.add(&a2).unwrap(),
        Tuple::vector(Scalar::new(1, 1), Scalar::new(1, 1), Scalar::new(6, 1))
    );
}

#[test]
fn adding_vector_and_point() {
    let p = Tuple::point(Scalar::new(3, 1), Scalar::new(-2, 1), Scalar::new(5, 1));
    let v = Tuple::vector(Scalar::new(-2, 1), Scalar::new(3, 1), Scalar::new(1, 1));
    assert_eq!(
        p.add(&v).unwrap(),
        Tuple::point(Scalar::new(1, 1), Scalar::new(1, 1), Scalar::new(6, 1))
    );
}

#[test]
fn adding_point_and_point() {
    let p1 = Tuple::point(Scalar::new(3, 1), Scalar::new(-2, 1), Scalar::new(5, 1));
    let p2 = Tuple::point(Scalar::new(-2, 1), Scalar::new(3, 1), Scalar::new(1, 1));
    assert_eq!(
        p1.add(&p2).unwrap(),
        Tuple::new(
            Scalar::new(1, 1),
            Scalar::new(1, 1),
            Scalar::new(6, 1),
            Scalar::new(2, 1),
        )
    );
}

#[test]
fn tuples_with_same_values_are_equal() {
    let a = Tuple::new(
        Scalar::new(1, 1),
        Scalar::new(2, 1),
        Scalar::new(3, 1),
        Scalar::new(4, 1),
    );
    let b = Tuple::new(
        Scalar::new(1, 1),
        Scalar::new(2, 1),
        Scalar::new(3, 1),
        Scalar::new(4, 1),
    );
    assert_eq!(a, b);
}

#[test]
fn subtracting_two_points() {
    let p1 = Tuple::point(Scalar::new(3, 1), Scalar::new(2, 1), Scalar::new(1, 1));
    let p2 = Tuple::point(Scalar::new(5, 1), Scalar::new(6, 1), Scalar::new(7, 1));
    assert_eq!(
        p1.sub(&p2).unwrap(),
        Tuple::vector(Scalar::new(-2, 1), Scalar::new(-4, 1), Scalar::new(-6, 1))
    );
}

#[test]
fn subtracting_vector_from_point() {
    let p = Tuple::point(Scalar::new(3, 1), Scalar::new(2, 1), Scalar::new(1, 1));
    let v = Tuple::vector(Scalar::new(5, 1), Scalar::new(6, 1), Scalar::new(7, 1));
    assert_eq!(
        p.sub(&v).unwrap(),
        Tuple::point(Scalar::new(-2, 1), Scalar::new(-4, 1), Scalar::new(-6, 1))
    );
}

#[test]
fn subtracting_two_vectors() {
    let v1 = Tuple::vector(Scalar::new(3, 1), Scalar::new(2, 1), Scalar::new(1, 1));
    let v2 = Tuple::vector(Scalar::new(5, 1), Scalar::new(6, 1), Scalar::new(7, 1));
    assert_eq!(
        v1.sub(&v2).unwrap(),
        Tuple::vector(Scalar::new(-2, 1), Scalar::new(-4, 1), Scalar::new(-6, 1))
    );
}

#[test]
fn negating_a_tuple() {
    let a = Tuple::new(
        Scalar::new(1, 1),
        Scalar::new(-2, 1),
        Scalar::new(3, 1),
        Scalar::new(-4, 1),
    );
    assert_eq!(
        a.neg(),
        Tuple::new(
            Scalar::new(-1, 1),
            Scalar::new(2, 1),
            Scalar::new(-3, 1),
            Scalar::new(4, 1),
        )
    );
}

#[test]
fn multiplying_a_tuple_by_a_scalar() {
    let a = Tuple::new(
        Scalar::new(1, 1),
        Scalar::new(-2, 1),
        Scalar::new(3, 1),
        Scalar::new(-4, 1),
    );
    assert_eq!(
        a.mul(&Scalar::new(7, 2)).unwrap(),
        Tuple::new(
            Scalar::new(7, 2),
            Scalar::new(-7, 1),
            Scalar::new(21, 2),
            Scalar::new(-14, 1),
        )
    );
}

#[test]
fn dividing_a_tuple_by_a_scalar() {
    let a = Tuple::new(
        Scalar::new(1, 1),
        Scalar::new(-2, 1),
        Scalar::new(3, 1),
        Scalar::new(-4, 1),
    );
    assert_eq!(
        a.div(&Scalar::new(2, 1)).unwrap(),
        Tuple::new(
            Scalar::new(1, 2),
            Scalar::new(-1, 1),
            Scalar::new(3, 2),
            Scalar::new(-2, 1),
        )
    );
}

#[test]
fn computing_the_magnitude_of_vector_1_0_0() {
    let v = Tuple::vector(Scalar::new(1, 1), Scalar::new(0, 1), Scalar::new(0, 1));
    assert_eq!(v.magnitude_squared().unwrap(), Scalar::new(1, 1));
}

#[test]
fn normalize_tuple() {
    let a = Tuple::vector(Scalar::new(4, 1), Scalar::new(0, 1), Scalar::new(0, 1));
    let b = a.normalize(&Scalar::new(4, 1)).unwrap();
    assert_eq!(
        b,
        Tuple::vector(Scalar::new(1, 1), Scalar::new(0, 1), Scalar::new(0, 1))
    );

    let c = Tuple::vector(Scalar::new(1, 1), Scalar::new(2, 1), Scalar::new(3, 1));
    // A close rational stand-in for the square root of fourteen.
    let m = Scalar::new(37416574, 10000000);
    let d = c.normalize(&m).unwrap();
    let expected = Tuple::vector(
        Scalar::new(10000000, 37416574),
        Scalar::new(20000000, 37416574),
        Scalar::new(30000000, 37416574),
    );
    assert_eq!(d, expected);
}

#[test]
fn dot_product() {
    let a = Tuple::vector(Scalar::new(1, 1), Scalar::new(2, 1), Scalar::new(3, 1));
    let b = Tuple::vector(Scalar::new(2, 1), Scalar::new(3, 1), Scalar::new(4, 1));
    let result = a.dot(&b).unwrap();
    assert_eq!(result, Scalar::new(20, 1));
}

#[test]
fn cross_product() {
    let a = Tuple::vector(Scalar::new(1, 1), Scalar::new(2, 1), Scalar::new(3, 1));
    let b = Tuple::vector(Scalar::new(2, 1), Scalar::new(3, 1), Scalar::new(4, 1));
    let result = a.cross(&b).unwrap();
    assert_eq!(
        result,
        Tuple::vector(Scalar::new(-1, 1), Scalar::new(2, 1), Scalar::new(-1, 1))
    );

    let c = Tuple::vector(Scalar::new(2, 1), Scalar::new(3, 1), Scalar::new(4, 1));
    let d = Tuple::vector(Scalar::new(1, 1), Scalar::new(2, 1), Scalar::new(3, 1));
    let result = c.cross(&d).unwrap();
    assert_eq!(
        result,
        Tuple::vector(Scalar::new(1, 1), Scalar::new(-2, 1), Scalar::new(1, 1))
    );
}

#[test]
fn cross_products_of_swapped_operands_are_negations() {
    let a = Tuple::vector(Scalar::new(5, 2), Scalar::new(-7, 3), Scalar::new(11, 4));
    let b = Tuple::vector(Scalar::new(-1, 6), Scalar::new(13, 5), Scalar::new(2, 7));
    let ab = a.cross(&b).unwrap();
    let ba = b.cross(&a).unwrap();
    assert_eq!(ab, ba.neg());
}

#[test]
fn normalized_vector_has_unit_squared_magnitude() {
    let v = Tuple::vector(Scalar::new(3, 1), Scalar::new(0, 1), Scalar::new(4, 1));
    let u = v.normalize(&Scalar::new(5, 1)).unwrap();
    assert_eq!(u.magnitude_squared().unwrap(), Scalar::new(1, 1));
}

#[test]
fn tuples_within_the_tolerance_compare_equal() {
    let a = Tuple::point(Scalar::new(1, 1), Scalar::new(2, 1), Scalar::new(3, 1));
    let close = Tuple::point(
        Scalar::new(2000000001, 2000000000),
        Scalar::new(2, 1),
        Scalar::new(3, 1),
    );
    let far = Tuple::point(
        Scalar::new(100000001, 100000000),
        Scalar::new(2, 1),
        Scalar::new(3, 1),
    );
    assert_eq!(a, close);
    assert_ne!(a, far);
}

#[test]
fn scalar_operations_report_unrepresentable_results() {
    let big = Scalar::new(i64::MAX, 1);
    let one = Scalar::new(1, 1);
    assert!(big.add(&one).is_none());
    assert!(big.mul(&Scalar::new(2, 1)).is_none());
    assert!(big.sub(&one).is_some());
}

#[test]
fn scalars_are_stored_in_lowest_terms() {
    let s = Scalar::new(2, 4);
    assert_eq!(s, Scalar::new(1, 2));
    assert_eq!(s.num(), 1);
    assert_eq!(s.den(), 2);
}
