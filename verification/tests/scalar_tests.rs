use tracer::rational::Scalar;
use tracer::sim::{Environment, Projectile, tick};
use tracer::tuple::Tuple;
use tracer::util::almost_equal;

fn s(n: i64, d: i64) -> Scalar {
    Scalar::new(n, d)
}

#[test]
fn scalar_arithmetic_is_exact() {
    let third = s(1, 3);
    let sixth = s(1, 6);
    assert_eq!(third.add(&sixth).unwrap(), s(1, 2));
    assert_eq!(third.sub(&sixth).unwrap(), sixth);
    assert_eq!(third.mul(&sixth).unwrap(), s(1, 18));
    assert_eq!(third.div(&sixth).unwrap(), s(2, 1));
    assert_eq!(third.neg(), s(-1, 3));
}

#[test]
fn almost_equal_uses_one_part_in_a_billion() {
    let a = s(1, 3);
    assert!(almost_equal(&a, &s(1, 3)));
    assert!(almost_equal(&s(0, 1), &s(1, 2000000000)));
    assert!(!almost_equal(&s(0, 1), &s(1, 100000000)));
    assert!(!almost_equal(&a, &s(1, 4)));
}

#[test]
fn a_tick_moves_the_projectile_and_bends_its_velocity() {
    let env = Environment {
        gravity: Tuple::vector(s(0, 1), s(-1, 10), s(0, 1)),
        wind: Tuple::vector(s(-1, 100), s(0, 1), s(0, 1)),
    };
    let proj = Projectile {
        position: Tuple::point(s(0, 1), s(1, 1), s(0, 1)),
        velocity: Tuple::vector(s(1, 1), s(2, 1), s(0, 1)),
    };
    let next = tick(&env, &proj).unwrap();
    assert_eq!(next.position, Tuple::point(s(1, 1), s(3, 1), s(0, 1)));
    assert_eq!(
        next.velocity,
        Tuple::vector(s(99, 100), s(19, 10), s(0, 1))
    );
}
