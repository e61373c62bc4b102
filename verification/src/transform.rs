//! A named-builder facade over three-by-three homogeneous matrices for
//! plane transforms.
//!
//! Each builder wraps the matching matrix; composition is ordinary matrix
//! multiplication, applying the rightmost transform first. The inverse of a
//! singular transform is an explicit absent result, never invalid state.

use vstd::prelude::*;

verus! {

use crate::rational::{Rat, rat_int, rat_neg, Scalar, view_opt};
use crate::matrix::{Matrix, MatrixV, mat_identity, mat_inverse, mat_mul, mat_rect, mat_cols};

/// The plane translation by `(x, y)`.
pub open spec fn plane_translation(x: Rat, y: Rat) -> MatrixV {
    seq![
        seq![rat_int(1), rat_int(0), x],
        seq![rat_int(0), rat_int(1), y],
        seq![rat_int(0), rat_int(0), rat_int(1)],
    ]
}

/// The plane scaling by `(x, y)`.
pub open spec fn plane_scaling(x: Rat, y: Rat) -> MatrixV {
    seq![
        seq![x, rat_int(0), rat_int(0)],
        seq![rat_int(0), y, rat_int(0)],
        seq![rat_int(0), rat_int(0), rat_int(1)],
    ]
}

/// The plane rotation with the given cosine and sine.
pub open spec fn plane_rotation(c: Rat, s: Rat) -> MatrixV {
    seq![
        seq![c, rat_neg(s), rat_int(0)],
        seq![s, c, rat_int(0)],
        seq![rat_int(0), rat_int(0), rat_int(1)],
    ]
}

/// The plane shear with the six off-diagonal coefficients.
pub open spec fn plane_shearing(xy: Rat, xz: Rat, yx: Rat, yz: Rat, zx: Rat, zy: Rat) -> MatrixV {
    seq![
        seq![rat_int(1), xy, xz],
        seq![yx, rat_int(1), yz],
        seq![zx, zy, rat_int(1)],
    ]
}

/// A plane transform: one three-by-three homogeneous matrix.
#[derive(Debug)]
pub struct Transform {
    pub matrix: Matrix,
}

impl View for Transform {
    type V = MatrixV;

    open spec fn view(&self) -> MatrixV {
        self.matrix@
    }
}

impl Transform {
    /// Wraps the given matrix.
    pub fn new(matrix: Matrix) -> (r: Transform)
        ensures
            r@ == matrix@,
    {
        Transform { matrix }
    }

    /// The identity transform.
    pub fn identity() -> (r: Transform)
        ensures
            r@ == mat_identity(3),
    {
        Transform::new(Matrix::identity(3))
    }

    /// The translation by `(x, y)`.
    pub fn translation(x: Scalar, y: Scalar) -> (r: Transform)
        ensures
            r@ == plane_translation(x@, y@),
    {
        let one = Scalar::from_int(1);
        let zero = Scalar::from_int(0);
        let r = Transform::new(
            Matrix::new(
                rows3(row3(one, zero, x), row3(zero, one, y), row3(zero, zero, one)),
            ),
        );
        proof {
            assert(r@ =~~= plane_translation(x@, y@));
        }
        r
    }

    /// The scaling by `(x, y)`.
    pub fn scaling(x: Scalar, y: Scalar) -> (r: Transform)
        ensures
            r@ == plane_scaling(x@, y@),
    {
        let one = Scalar::from_int(1);
        let zero = Scalar::from_int(0);
        let r = Transform::new(
            Matrix::new(
                rows3(row3(x, zero, zero), row3(zero, y, zero), row3(zero, zero, one)),
            ),
        );
        proof {
            assert(r@ =~~= plane_scaling(x@, y@));
        }
        r
    }

    /// The rotation with the given cosine and sine of the angle.
    pub fn rotation(cos_t: Scalar, sin_t: Scalar) -> (r: Transform)
        ensures
            r@ == plane_rotation(cos_t@, sin_t@),
    {
        let one = Scalar::from_int(1);
        let zero = Scalar::from_int(0);
        let r = Transform::new(
            Matrix::new(
                rows3(
                    row3(cos_t, sin_t.neg(), zero),
                    row3(sin_t, cos_t, zero),
                    row3(zero, zero, one),
                ),
            ),
        );
        proof {
            assert(r@ =~~= plane_rotation(cos_t@, sin_t@));
        }
        r
    }

    /// The shear with the six off-diagonal coefficients.
    pub fn shearing(x_y: Scalar, x_z: Scalar, y_x: Scalar, y_z: Scalar, z_x: Scalar, z_y: Scalar)
        -> (r: Transform)
        ensures
            r@ == plane_shearing(x_y@, x_z@, y_x@, y_z@, z_x@, z_y@),
    {
        let one = Scalar::from_int(1);
        let r = Transform::new(
            Matrix::new(rows3(row3(one, x_y, x_z), row3(y_x, one, y_z), row3(z_x, z_y, one))),
        );
        proof {
            assert(r@ =~~= plane_shearing(x_y@, x_z@, y_x@, y_z@, z_x@, z_y@));
        }
        r
    }

    /// The underlying matrix.
    pub fn matrix(&self) -> (r: &Matrix)
        ensures
            r@ == self@,
    {
        &self.matrix
    }

    /// The composition `self * other`, which applies `other` first.
    pub fn compose(&self, other: &Transform) -> (r: Option<Transform>)
        requires
            mat_rect(self@),
            mat_rect(other@),
            mat_cols(self@) == other@.len(),
        ensures
            r matches Some(t) ==> mat_mul(self@, other@) == Some(t@),
            r is None ==> mat_mul(self@, other@) is None,
    {
        match self.matrix.mul(&other.matrix) {
            Some(m) => Some(Transform::new(m)),
            None => None,
        }
    }

    /// The inverse transform, absent when the matrix is singular or the
    /// exact inverse is not representable.
    pub fn inverse(&self) -> (r: Option<Transform>)
        requires
            crate::matrix::mat_square(self@),
            2 <= self@.len(),
        ensures
            r matches Some(t) ==> mat_inverse(self@) == Some(t@),
            r is None ==> mat_inverse(self@) is None,
    {
        match self.matrix.inverse() {
            Some(m) => Some(Transform::new(m)),
            None => None,
        }
    }
}

/// A row of three scalars.
fn row3(a: Scalar, b: Scalar, c: Scalar) -> (r: Vec<Scalar>)
    ensures
        r.deep_view() == seq![a@, b@, c@],
{
    let mut r: Vec<Scalar> = Vec::new();
    r.push(a);
    r.push(b);
    r.push(c);
    proof {
        assert(r.deep_view() =~= seq![a@, b@, c@]);
    }
    r
}

/// Three rows gathered into a grid.
fn rows3(r0: Vec<Scalar>, r1: Vec<Scalar>, r2: Vec<Scalar>) -> (r: Vec<Vec<Scalar>>)
    ensures
        r.deep_view() == seq![r0.deep_view(), r1.deep_view(), r2.deep_view()],
{
    let ghost g0 = r0.deep_view();
    let ghost g1 = r1.deep_view();
    let ghost g2 = r2.deep_view();
    let mut r: Vec<Vec<Scalar>> = Vec::new();
    r.push(r0);
    r.push(r1);
    r.push(r2);
    proof {
        assert(r.deep_view() =~= seq![g0, g1, g2]);
    }
    r
}

} // verus!
