use tracer::rational::Scalar;
use tracer::ray::{Ray, RayError};
use tracer::tuple::Tuple;

fn si(n: i64) -> Scalar {
    Scalar::new(n, 1)
}

#[test]
fn creating_and_querying_a_ray() {
    let origin = Tuple::point(si(1), si(2), si(3));
    let direction = Tuple::vector(si(4), si(5), si(6));
    let r = Ray::new(origin, direction).unwrap();

    assert_eq!(r.origin, origin);
    assert_eq!(r.direction, direction);
}

#[test]
fn computing_a_point_from_a_distance() {
    let r = Ray::new(
        Tuple::point(si(2), si(3), si(4)),
        Tuple::vector(si(1), si(0), si(0)),
    )
    .unwrap();
    assert_eq!(
        r.position(&si(0)).unwrap(),
        Tuple::point(si(2), si(3), si(4))
    );
    assert_eq!(
        r.position(&si(1)).unwrap(),
        Tuple::point(si(3), si(3), si(4))
    );
    assert_eq!(
        r.position(&si(-1)).unwrap(),
        Tuple::point(si(1), si(3), si(4))
    );
    assert_eq!(
        r.position(&Scalar::new(5, 2)).unwrap(),
        Tuple::point(Scalar::new(9, 2), si(3), si(4))
    );
}

#[test]
fn ray_rejects_a_vector_origin() {
    let r = Ray::new(
        Tuple::vector(si(1), si(2), si(3)),
        Tuple::vector(si(4), si(5), si(6)),
    );
    assert!(matches!(r, Err(RayError::OriginNotAPoint)));
}

#[test]
fn ray_rejects_a_point_direction() {
    let r = Ray::new(
        Tuple::point(si(1), si(2), si(3)),
        Tuple::point(si(4), si(5), si(6)),
    );
    assert!(matches!(r, Err(RayError::DirectionNotAVector)));
}
