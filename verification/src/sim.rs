//! The projectile simulation step.
//!
//! The core offers one explicit step function from state to state; the
//! driving loop, its termination test and all output live with the caller.

use vstd::prelude::*;

verus! {

use crate::rational::view_opt;
use crate::tuple::{Tuple, TupleV, tup_add};

/// A projectile: where it is and how fast it moves.
#[derive(Clone, Copy, Debug)]
pub struct Projectile {
    pub position: Tuple,
    pub velocity: Tuple,
}

/// A constant environment: gravity and wind.
#[derive(Clone, Copy, Debug)]
pub struct Environment {
    pub gravity: Tuple,
    pub wind: Tuple,
}

/// Model of one simulation step: the position advances by the velocity,
/// and the velocity by gravity and wind.
pub open spec fn tick_spec(gravity: TupleV, wind: TupleV, position: TupleV, velocity: TupleV)
    -> Option<(TupleV, TupleV)> {
    match (tup_add(position, velocity), tup_add(velocity, gravity)) {
        (Some(p), Some(v1)) => match tup_add(v1, wind) {
            Some(v) => Some((p, v)),
            None => None,
        },
        _ => None,
    }
}

/// One simulation step.
pub fn tick(env: &Environment, proj: &Projectile) -> (r: Option<Projectile>)
    ensures
        r matches Some(p) ==> tick_spec(env.gravity@, env.wind@, proj.position@, proj.velocity@)
            == Some((p.position@, p.velocity@)),
        r is None ==> tick_spec(env.gravity@, env.wind@, proj.position@, proj.velocity@) is None,
{
    let position = match proj.position.add(&proj.velocity) {
        Some(p) => p,
        None => {
            return None;
        },
    };
    let v1 = match proj.velocity.add(&env.gravity) {
        Some(v) => v,
        None => {
            return None;
        },
    };
    let velocity = match v1.add(&env.wind) {
        Some(v) => v,
        None => {
            return None;
        },
    };
    Some(Projectile { position, velocity })
}

} // verus!
