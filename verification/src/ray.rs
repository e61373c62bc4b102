//! Parametric rays.
//!
//! A ray has a point origin and a vector direction; `position(t)` evaluates
//! `origin + direction * t` for any parameter, negative values included.
//! Construction is fallible: a non-point origin or non-vector direction is
//! rejected with a tagged error instead of invalid state.

use vstd::prelude::*;

verus! {

use crate::rational::{Rat, Scalar, rat_eq, rat_int, view_opt, lemma_checked_units, lemma_reduce};
use crate::tuple::{Tuple, TupleV, tup_add, tup_scale, tup_eq, tup_near, tup_wf, tup_in_range};

/// Why a ray could not be built.
#[derive(Clone, Copy, Debug, PartialEq, Eq, Structural)]
pub enum RayError {
    OriginNotAPoint,
    DirectionNotAVector,
}

/// Mathematical model of a ray.
pub ghost struct RayV {
    pub origin: TupleV,
    pub direction: TupleV,
}

/// `origin + direction * t`, exactly.
pub open spec fn ray_position(r: RayV, t: Rat) -> Option<TupleV> {
    match tup_scale(r.direction, t) {
        Some(d) => tup_add(r.origin, d),
        None => None,
    }
}

/// A parametric ray: a point origin and a vector direction.
#[derive(Clone, Copy, Debug)]
pub struct Ray {
    pub origin: Tuple,
    pub direction: Tuple,
}

impl View for Ray {
    type V = RayV;

    open spec fn view(&self) -> RayV {
        RayV { origin: self.origin@, direction: self.direction@ }
    }
}

impl Ray {
    /// Builds a ray from a point origin and a vector direction; rejects
    /// anything else with the matching error.
    pub fn new(origin: Tuple, direction: Tuple) -> (r: Result<Ray, RayError>)
        ensures
            !rat_eq(origin@.w, rat_int(1)) ==> r == Err::<Ray, RayError>(RayError::OriginNotAPoint),
            rat_eq(origin@.w, rat_int(1)) && !rat_eq(direction@.w, rat_int(0)) ==> r == Err::<
                Ray,
                RayError,
            >(RayError::DirectionNotAVector),
            rat_eq(origin@.w, rat_int(1)) && rat_eq(direction@.w, rat_int(0)) ==> (r matches Ok(ray)
                && ray@ == (RayV { origin: origin@, direction: direction@ })),
    {
        if !origin.is_point() {
            return Err(RayError::OriginNotAPoint);
        }
        if !direction.is_vector() {
            return Err(RayError::DirectionNotAVector);
        }
        Ok(Ray { origin, direction })
    }

    /// The point `origin + direction * t`.
    pub fn position(&self, t: &Scalar) -> (r: Option<Tuple>)
        ensures
            view_opt(r) == ray_position(self@, t@),
    {
        let d = match self.direction.mul(t) {
            Some(v) => v,
            None => {
                return None;
            },
        };
        self.origin.add(&d)
    }
}

/// Evaluating a ray at parameter one advances the origin by exactly the
/// direction, whenever the exact sum is representable.
pub proof fn lemma_position_one(r: RayV)
    requires
        tup_wf(r.origin),
        tup_in_range(r.origin),
        tup_wf(r.direction),
        tup_in_range(r.direction),
    ensures
        ray_position(r, rat_int(1)) matches Some(p) ==> rat_eq(
            p.x,
            crate::rational::rat_add(r.origin.x, r.direction.x),
        ) && rat_eq(p.y, crate::rational::rat_add(r.origin.y, r.direction.y)) && rat_eq(
            p.z,
            crate::rational::rat_add(r.origin.z, r.direction.z),
        ) && rat_eq(p.w, crate::rational::rat_add(r.origin.w, r.direction.w)),
{
    lemma_checked_units(r.direction.x);
    lemma_checked_units(r.direction.y);
    lemma_checked_units(r.direction.z);
    lemma_checked_units(r.direction.w);
    lemma_reduce(r.direction.x);
    lemma_reduce(r.direction.y);
    lemma_reduce(r.direction.z);
    lemma_reduce(r.direction.w);
    if ray_position(r, rat_int(1)) is Some {
        let p = ray_position(r, rat_int(1)).unwrap();
        lemma_position_one_component(r.origin.x, r.direction.x, p.x);
        lemma_position_one_component(r.origin.y, r.direction.y, p.y);
        lemma_position_one_component(r.origin.z, r.direction.z, p.z);
        lemma_position_one_component(r.origin.w, r.direction.w, p.w);
    }
}

/// One component of the parameter-one evaluation: adding the reduced
/// direction component equals adding the component itself.
proof fn lemma_position_one_component(o: Rat, dir: Rat, res: Rat)
    requires
        crate::rational::rat_wf(o),
        crate::rational::in_range(o),
        crate::rational::rat_wf(dir),
        crate::rational::in_range(dir),
        crate::rational::checked(
            crate::rational::rat_add(o, crate::rational::reduce(dir)),
        ) == Some(res),
    ensures
        rat_eq(res, crate::rational::rat_add(o, dir)),
{
    lemma_reduce(dir);
    crate::rational::lemma_rat_ops_wf(o, crate::rational::reduce(dir));
    crate::rational::lemma_checked_some(crate::rational::rat_add(o, crate::rational::reduce(dir)));
    crate::rational::lemma_rat_add_cong(o, o, crate::rational::reduce(dir), dir);
    crate::rational::lemma_rat_ops_wf(o, dir);
    crate::rational::lemma_rat_eq_trans(
        res,
        crate::rational::rat_add(o, crate::rational::reduce(dir)),
        crate::rational::rat_add(o, dir),
    );
}

/// Evaluating a ray at parameter zero always succeeds and yields the
/// origin.
pub proof fn lemma_position_zero(r: RayV)
    requires
        tup_wf(r.origin),
        tup_in_range(r.origin),
        tup_wf(r.direction),
        tup_in_range(r.direction),
    ensures
        ray_position(r, rat_int(0)) matches Some(p) && tup_eq(p, r.origin) && tup_near(
            p,
            r.origin,
        ),
{
    lemma_checked_units(r.direction.x);
    lemma_checked_units(r.direction.y);
    lemma_checked_units(r.direction.z);
    lemma_checked_units(r.direction.w);
    let d = tup_scale(r.direction, rat_int(0)).unwrap();
    assert(d == (TupleV { x: rat_int(0), y: rat_int(0), z: rat_int(0), w: rat_int(0) }));
    lemma_checked_units(r.origin.x);
    lemma_checked_units(r.origin.y);
    lemma_checked_units(r.origin.z);
    lemma_checked_units(r.origin.w);
    let p = ray_position(r, rat_int(0)).unwrap();
    crate::tuple::lemma_tup_eq_implies_near(p, r.origin);
}

} // verus!
