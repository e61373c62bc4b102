//! Square and rectangular matrices of exact scalars.
//!
//! A matrix is stored row-major; the column view is computed on demand by
//! `transpose`. Determinants use Laplace expansion along the first row;
//! the inverse divides cofactors of the transposed position by the
//! determinant. Arithmetic is exact; fallible operations return `None`
//! exactly when some exact intermediate result is not representable.

use vstd::prelude::*;

verus! {

use crate::rational::{
    Rat, Scalar, rat_wf, rat_eq, rat_int, rat_add, rat_sub, rat_mul, rat_neg, rat_div, checked,
    view_opt, in_range, lemma_push_deep, lemma_checked_units, lemma_reduce, reduce,
    lemma_rat_ops_wf,
};
use crate::tuple::{Tuple, TupleV};

/// Mathematical model of a matrix: a sequence of rows of rationals.
pub type MatrixV = Seq<Seq<Rat>>;

/// The number of columns: the width of the first row.
pub open spec fn mat_cols(m: MatrixV) -> nat {
    if m.len() == 0 {
        0
    } else {
        m[0].len()
    }
}

/// Every row has the width of the first.
pub open spec fn mat_rect(m: MatrixV) -> bool {
    forall|i: int| 0 <= i < m.len() ==> (#[trigger] m[i]).len() == mat_cols(m)
}

/// Rectangular with as many rows as columns.
pub open spec fn mat_square(m: MatrixV) -> bool {
    mat_rect(m) && mat_cols(m) == m.len()
}

/// Every entry is a well-formed representation.
pub open spec fn mat_wf(m: MatrixV) -> bool {
    forall|i: int, j: int|
        0 <= i < m.len() && 0 <= j < m[i].len() ==> rat_wf(#[trigger] m[i][j])
}

/// Every entry fits the scalar range.
pub open spec fn mat_in_range(m: MatrixV) -> bool {
    forall|i: int, j: int|
        0 <= i < m.len() && 0 <= j < m[i].len() ==> in_range(#[trigger] m[i][j])
}

/// Elementwise exact equality of the denoted rationals, including shape.
pub open spec fn mat_eq(a: MatrixV, b: MatrixV) -> bool {
    &&& a.len() == b.len()
    &&& forall|i: int| 0 <= i < a.len() ==> (#[trigger] a[i]).len() == b[i].len()
    &&& forall|i: int, j: int|
        0 <= i < a.len() && 0 <= j < a[i].len() ==> rat_eq(#[trigger] a[i][j], b[i][j])
}

/// Elementwise approximate equality, including shape: every entry differs
/// by less than the canonical tolerance.
pub open spec fn mat_near(a: MatrixV, b: MatrixV) -> bool {
    &&& a.len() == b.len()
    &&& forall|i: int| 0 <= i < a.len() ==> (#[trigger] a[i]).len() == b[i].len()
    &&& forall|i: int, j: int|
        0 <= i < a.len() && 0 <= j < a[i].len() ==> crate::util::rat_near(
            #[trigger] a[i][j],
            b[i][j],
        )
}

/// Exactly equal matrices are in particular approximately equal.
pub proof fn lemma_mat_eq_implies_near(a: MatrixV, b: MatrixV)
    requires
        mat_wf(a),
        mat_wf(b),
        mat_eq(a, b),
    ensures
        mat_near(a, b),
{
    assert forall|i: int, j: int|
        0 <= i < a.len() && 0 <= j < a[i].len() implies crate::util::rat_near(
        #[trigger] a[i][j],
        b[i][j],
    ) by {
        crate::util::lemma_rat_eq_implies_near(a[i][j], b[i][j]);
    }
}

/// The n-by-n identity.
pub open spec fn mat_identity(n: nat) -> MatrixV {
    Seq::new(
        n,
        |i: int|
            Seq::new(
                n,
                |j: int|
                    if i == j {
                        rat_int(1)
                    } else {
                        rat_int(0)
                    },
            ),
    )
}

/// Rows and columns exchanged.
pub open spec fn mat_transpose(m: MatrixV) -> MatrixV {
    Seq::new(mat_cols(m), |j: int| Seq::new(m.len(), |i: int| m[i][j]))
}

/// The matrix with row `r` and column `c` removed.
pub open spec fn mat_submatrix(m: MatrixV, r: int, c: int) -> MatrixV {
    Seq::new(
        (m.len() - 1) as nat,
        |i: int|
            Seq::new(
                (mat_cols(m) - 1) as nat,
                |j: int|
                    m[if i < r {
                        i
                    } else {
                        i + 1
                    }][
                        if j < c {
                            j
                        } else {
                            j + 1
                        }
                    ],
            ),
    )
}

/// The determinant: the sole entry for size one, `a*d - b*c` for size two,
/// and Laplace expansion along the first row above that. `None` when some
/// exact intermediate is not representable.
pub open spec fn mat_det(m: MatrixV) -> Option<Rat>
    recommends
        mat_square(m),
        1 <= m.len(),
    decreases m.len(), 2int, 0int,
{
    if m.len() == 1 {
        Some(m[0][0])
    } else if m.len() == 2 {
        match (checked(rat_mul(m[0][0], m[1][1])), checked(rat_mul(m[0][1], m[1][0]))) {
            (Some(u), Some(v)) => checked(rat_sub(u, v)),
            _ => None,
        }
    } else {
        mat_det_sum(m, 0, rat_int(0))
    }
}

/// The tail of the Laplace expansion from column `j` on, starting at `acc`.
pub open spec fn mat_det_sum(m: MatrixV, j: int, acc: Rat) -> Option<Rat>
    decreases m.len(), 1int, mat_cols(m) - j,
{
    if j < 0 || j >= mat_cols(m) {
        Some(acc)
    } else {
        match mat_cofactor(m, 0, j) {
            Some(c) => match checked(rat_mul(m[0][j], c)) {
                Some(t) => match checked(rat_add(acc, t)) {
                    Some(s) => mat_det_sum(m, j + 1, s),
                    None => None,
                },
                None => None,
            },
            None => None,
        }
    }
}

/// The signed minor: the determinant of the submatrix at `(r, c)`, negated
/// when `r + c` is odd.
pub open spec fn mat_cofactor(m: MatrixV, r: int, c: int) -> Option<Rat>
    decreases m.len(), 0int, 0int,
{
    if m.len() < 2 {
        None
    } else {
        match mat_det(mat_submatrix(m, r, c)) {
            Some(v) => if (r + c) % 2 == 0 {
                Some(v)
            } else {
                Some(rat_neg(v))
            },
            None => None,
        }
    }
}

/// One entry of the inverse: the cofactor of the transposed position
/// divided by the determinant.
pub open spec fn mat_inv_entry(m: MatrixV, det: Rat, i: int, j: int) -> Option<Rat> {
    match mat_cofactor(m, j, i) {
        Some(c) => checked(rat_div(c, det)),
        None => None,
    }
}

/// The inverse exists exactly when the determinant is representable and
/// nonzero and every entry of the inverse is representable.
pub open spec fn mat_inverse(m: MatrixV) -> Option<MatrixV> {
    match mat_det(m) {
        Some(det) => {
            if det.n != 0 && (forall|i: int, j: int|
                0 <= i < m.len() && 0 <= j < m.len() ==> (#[trigger] mat_inv_entry(m, det, i, j))
                    is Some) {
                Some(
                    Seq::new(
                        m.len(),
                        |i: int|
                            Seq::new(
                                m.len(),
                                |j: int|
                                    match mat_inv_entry(m, det, i, j) {
                                        Some(v) => v,
                                        None => rat_int(0),
                                    },
                            ),
                    ),
                )
            } else {
                None
            }
        },
        None => None,
    }
}

/// One entry of an elementwise sum or difference.
pub open spec fn mat_addsub_entry(a: MatrixV, b: MatrixV, plus: bool, i: int, j: int) -> Option<
    Rat,
> {
    if plus {
        checked(rat_add(a[i][j], b[i][j]))
    } else {
        checked(rat_sub(a[i][j], b[i][j]))
    }
}

/// The elementwise sum (`plus`) or difference of two equally shaped
/// matrices; `None` when some exact entry is not representable.
pub open spec fn mat_addsub(a: MatrixV, b: MatrixV, plus: bool) -> Option<MatrixV> {
    if forall|i: int, j: int|
        0 <= i < a.len() && 0 <= j < a[i].len() ==> (#[trigger] mat_addsub_entry(a, b, plus, i, j))
            is Some {
        Some(
            Seq::new(
                a.len(),
                |i: int|
                    Seq::new(
                        a[i].len(),
                        |j: int|
                            match mat_addsub_entry(a, b, plus, i, j) {
                                Some(v) => v,
                                None => rat_int(0),
                            },
                    ),
            ),
        )
    } else {
        None
    }
}

/// The pairwise products of `u` and `v` from position `k` on, summed onto
/// `acc` left to right, exactly.
pub open spec fn dot_rows(u: Seq<Rat>, v: Seq<Rat>, k: int, acc: Rat) -> Option<Rat>
    decreases u.len() - k,
{
    if k < 0 || k >= u.len() {
        Some(acc)
    } else {
        match checked(rat_mul(u[k], v[k])) {
            Some(t) => match checked(rat_add(acc, t)) {
                Some(s) => dot_rows(u, v, k + 1, s),
                None => None,
            },
            None => None,
        }
    }
}

/// Column `j` of a matrix.
pub open spec fn mat_column(b: MatrixV, j: int) -> Seq<Rat> {
    Seq::new(b.len(), |k: int| b[k][j])
}

/// Entry `(i, j)` of a matrix product: row `i` of `a` times column `j` of
/// `b`.
pub open spec fn mat_mul_entry(a: MatrixV, b: MatrixV, i: int, j: int) -> Option<Rat> {
    dot_rows(a[i], mat_column(b, j), 0, rat_int(0))
}

/// The matrix product; `None` when some exact intermediate is not
/// representable.
pub open spec fn mat_mul(a: MatrixV, b: MatrixV) -> Option<MatrixV> {
    if forall|i: int, j: int|
        0 <= i < a.len() && 0 <= j < mat_cols(b) ==> (#[trigger] mat_mul_entry(a, b, i, j))
            is Some {
        Some(
            Seq::new(
                a.len(),
                |i: int|
                    Seq::new(
                        mat_cols(b),
                        |j: int|
                            match mat_mul_entry(a, b, i, j) {
                                Some(v) => v,
                                None => rat_int(0),
                            },
                    ),
            ),
        )
    } else {
        None
    }
}

/// The components of a tuple as a sequence, in order.
pub open spec fn tup_comps(t: TupleV) -> Seq<Rat> {
    seq![t.x, t.y, t.z, t.w]
}

/// A four-by-four matrix applied to a tuple: each component is the dot
/// product of the matching row with the tuple.
pub open spec fn mat_mul_tuple(m: MatrixV, t: TupleV) -> Option<TupleV> {
    match (dot_rows(m[0], tup_comps(t), 0, rat_int(0)), dot_rows(m[1], tup_comps(t), 0, rat_int(0)),
    dot_rows(m[2], tup_comps(t), 0, rat_int(0)), dot_rows(m[3], tup_comps(t), 0, rat_int(0))) {
        (Some(x), Some(y), Some(z), Some(w)) => Some(TupleV { x, y, z, w }),
        _ => None,
    }
}

/// The homogeneous translation by `(x, y, z)`.
pub open spec fn mat_translation(x: Rat, y: Rat, z: Rat) -> MatrixV {
    seq![
        seq![rat_int(1), rat_int(0), rat_int(0), x],
        seq![rat_int(0), rat_int(1), rat_int(0), y],
        seq![rat_int(0), rat_int(0), rat_int(1), z],
        seq![rat_int(0), rat_int(0), rat_int(0), rat_int(1)],
    ]
}

/// The homogeneous scaling by `(x, y, z)`.
pub open spec fn mat_scaling(x: Rat, y: Rat, z: Rat) -> MatrixV {
    seq![
        seq![x, rat_int(0), rat_int(0), rat_int(0)],
        seq![rat_int(0), y, rat_int(0), rat_int(0)],
        seq![rat_int(0), rat_int(0), z, rat_int(0)],
        seq![rat_int(0), rat_int(0), rat_int(0), rat_int(1)],
    ]
}

/// Rotation about the x axis, given the cosine and sine of the angle.
pub open spec fn mat_rotation_x(c: Rat, s: Rat) -> MatrixV {
    seq![
        seq![rat_int(1), rat_int(0), rat_int(0), rat_int(0)],
        seq![rat_int(0), c, rat_neg(s), rat_int(0)],
        seq![rat_int(0), s, c, rat_int(0)],
        seq![rat_int(0), rat_int(0), rat_int(0), rat_int(1)],
    ]
}

/// Rotation about the y axis, given the cosine and sine of the angle.
pub open spec fn mat_rotation_y(c: Rat, s: Rat) -> MatrixV {
    seq![
        seq![c, rat_int(0), s, rat_int(0)],
        seq![rat_int(0), rat_int(1), rat_int(0), rat_int(0)],
        seq![rat_neg(s), rat_int(0), c, rat_int(0)],
        seq![rat_int(0), rat_int(0), rat_int(0), rat_int(1)],
    ]
}

/// Rotation about the z axis, given the cosine and sine of the angle.
pub open spec fn mat_rotation_z(c: Rat, s: Rat) -> MatrixV {
    seq![
        seq![c, rat_neg(s), rat_int(0), rat_int(0)],
        seq![s, c, rat_int(0), rat_int(0)],
        seq![rat_int(0), rat_int(0), rat_int(1), rat_int(0)],
        seq![rat_int(0), rat_int(0), rat_int(0), rat_int(1)],
    ]
}

/// The shear with the six off-diagonal coefficients.
pub open spec fn mat_shearing(xy: Rat, xz: Rat, yx: Rat, yz: Rat, zx: Rat, zy: Rat) -> MatrixV {
    seq![
        seq![rat_int(1), xy, xz, rat_int(0)],
        seq![yx, rat_int(1), yz, rat_int(0)],
        seq![zx, zy, rat_int(1), rat_int(0)],
        seq![rat_int(0), rat_int(0), rat_int(0), rat_int(1)],
    ]
}

/// Transposing twice restores the matrix (for matrices with at least one
/// column; a matrix of empty rows loses them under transposition).
pub proof fn lemma_transpose_involution(m: MatrixV)
    requires
        mat_rect(m),
        m.len() == 0 || 1 <= mat_cols(m),
    ensures
        mat_transpose(mat_transpose(m)) == m,
{
    let t = mat_transpose(m);
    if m.len() == 0 {
        assert(mat_transpose(t) =~~= m);
    } else {
        assert(t.len() == mat_cols(m));
        assert(mat_cols(t) == m.len());
        assert(mat_transpose(t) =~~= m);
    }
}

/// Multiplying by the identity on either side succeeds and preserves every
/// entry.
pub proof fn lemma_mul_identity(m: MatrixV)
    requires
        mat_square(m),
        mat_wf(m),
        mat_in_range(m),
    ensures
        mat_mul(m, mat_identity(m.len())) matches Some(p) && mat_eq(p, m) && mat_near(p, m),
        mat_mul(mat_identity(m.len()), m) matches Some(q) && mat_eq(q, m) && mat_near(q, m),
{
    let n = m.len();
    let idm = mat_identity(n);
    assert(idm.len() == n);
    assert(mat_cols(idm) == n || n == 0);
    // Right identity: each entry is the dot of a row with a unit column.
    assert forall|i: int, j: int|
        0 <= i < n && 0 <= j < n implies (#[trigger] mat_mul_entry(m, idm, i, j)) matches Some(r)
        && rat_eq(r, m[i][j]) && rat_wf(r) by {
        let e = mat_column(idm, j);
        assert(e.len() == n);
        assert(forall|t: int|
            0 <= t < n ==> (#[trigger] e[t]) == if t == j {
                rat_int(1)
            } else {
                rat_int(0)
            });
        lemma_dot_unit_right(m[i], e, j, 0, rat_int(0));
    }
    assert(mat_mul(m, idm) is Some);
    let p = mat_mul(m, idm).unwrap();
    assert(mat_eq(p, m)) by {
        assert(p.len() == m.len());
        assert(forall|i: int| 0 <= i < p.len() ==> (#[trigger] p[i]).len() == m[i].len());
        assert forall|i: int, j: int|
            0 <= i < p.len() && 0 <= j < p[i].len() implies rat_eq(#[trigger] p[i][j], m[i][j]) by {
            assert(mat_mul_entry(m, idm, i, j) matches Some(r) && rat_eq(r, m[i][j]));
        }
    }
    assert(mat_wf(p)) by {
        assert forall|i: int, j: int|
            0 <= i < p.len() && 0 <= j < p[i].len() implies rat_wf(#[trigger] p[i][j]) by {
            assert(mat_mul_entry(m, idm, i, j) matches Some(r) && rat_wf(r));
        }
    }
    lemma_mat_eq_implies_near(p, m);
    // Left identity: each entry is the dot of a unit row with a column.
    assert forall|i: int, j: int|
        0 <= i < n && 0 <= j < n implies (#[trigger] mat_mul_entry(idm, m, i, j)) matches Some(r)
        && rat_eq(r, m[i][j]) && rat_wf(r) by {
        let u = idm[i];
        let v = mat_column(m, j);
        assert(u.len() == n && v.len() == n);
        assert(forall|t: int|
            0 <= t < n ==> (#[trigger] u[t]) == if t == i {
                rat_int(1)
            } else {
                rat_int(0)
            });
        assert(forall|t: int| 0 <= t < n ==> (#[trigger] v[t]) == m[t][j]);
        assert(forall|t: int| 0 <= t < n ==> rat_wf(#[trigger] v[t]) && in_range(v[t]));
        lemma_dot_unit_left(u, v, i, 0, rat_int(0));
        assert(v[i] == m[i][j]);
    }
    assert(mat_mul(idm, m) is Some);
    let q = mat_mul(idm, m).unwrap();
    assert(mat_eq(q, m)) by {
        assert(q.len() == m.len());
        assert(forall|i: int| 0 <= i < q.len() ==> (#[trigger] q[i]).len() == m[i].len());
        assert forall|i: int, j: int|
            0 <= i < q.len() && 0 <= j < q[i].len() implies rat_eq(#[trigger] q[i][j], m[i][j]) by {
            assert(mat_mul_entry(idm, m, i, j) matches Some(r) && rat_eq(r, m[i][j]));
        }
    }
    assert(mat_wf(q)) by {
        assert forall|i: int, j: int|
            0 <= i < q.len() && 0 <= j < q[i].len() implies rat_wf(#[trigger] q[i][j]) by {
            assert(mat_mul_entry(idm, m, i, j) matches Some(r) && rat_wf(r));
        }
    }
    lemma_mat_eq_implies_near(q, m);
}

/// Folding a row against a unit column keeps exactly the entry at the
/// unit's position.
proof fn lemma_dot_unit_right(u: Seq<Rat>, e: Seq<Rat>, j: int, k: int, acc: Rat)
    requires
        u.len() == e.len(),
        forall|t: int| 0 <= t < u.len() ==> rat_wf(#[trigger] u[t]) && in_range(u[t]),
        forall|t: int|
            0 <= t < e.len() ==> (#[trigger] e[t]) == if t == j {
                rat_int(1)
            } else {
                rat_int(0)
            },
        0 <= j < u.len(),
        0 <= k <= u.len(),
        k <= j ==> acc == rat_int(0),
        k > j ==> rat_wf(acc) && in_range(acc) && rat_eq(acc, u[j]),
    ensures
        dot_rows(u, e, k, acc) matches Some(r) && rat_eq(r, u[j]) && rat_wf(r) && in_range(r),
    decreases u.len() - k,
{
    lemma_reduce(rat_int(0));
    if k == u.len() {
        assert(rat_eq(acc, u[j]));
    } else {
        let uk = u[k];
        if k < j {
            lemma_checked_units(uk);
            assert(checked(rat_mul(uk, e[k])) == Some(rat_int(0)));
            lemma_checked_units(rat_int(0));
            assert(checked(rat_add(rat_int(0), rat_int(0))) == Some(rat_int(0)));
            lemma_dot_unit_right(u, e, j, k + 1, rat_int(0));
        } else if k == j {
            lemma_checked_units(uk);
            assert(checked(rat_mul(uk, e[k])) == Some(reduce(uk)));
            lemma_checked_units(reduce(uk));
            assert(checked(rat_add(rat_int(0), reduce(uk))) == Some(reduce(reduce(uk))));
            lemma_reduce(uk);
            lemma_reduce(reduce(uk));
            crate::rational::lemma_rat_eq_trans(reduce(reduce(uk)), reduce(uk), uk);
            lemma_dot_unit_right(u, e, j, k + 1, reduce(reduce(uk)));
        } else {
            lemma_checked_units(uk);
            assert(checked(rat_mul(uk, e[k])) == Some(rat_int(0)));
            lemma_checked_units(acc);
            assert(checked(rat_add(acc, rat_int(0))) == Some(reduce(acc)));
            lemma_reduce(acc);
            crate::rational::lemma_rat_eq_trans(reduce(acc), acc, u[j]);
            lemma_dot_unit_right(u, e, j, k + 1, reduce(acc));
        }
    }
}

/// Folding a unit row against a column keeps exactly the entry at the
/// unit's position.
proof fn lemma_dot_unit_left(u: Seq<Rat>, v: Seq<Rat>, i: int, k: int, acc: Rat)
    requires
        u.len() == v.len(),
        forall|t: int| 0 <= t < v.len() ==> rat_wf(#[trigger] v[t]) && in_range(v[t]),
        forall|t: int|
            0 <= t < u.len() ==> (#[trigger] u[t]) == if t == i {
                rat_int(1)
            } else {
                rat_int(0)
            },
        0 <= i < u.len(),
        0 <= k <= u.len(),
        k <= i ==> acc == rat_int(0),
        k > i ==> rat_wf(acc) && in_range(acc) && rat_eq(acc, v[i]),
    ensures
        dot_rows(u, v, k, acc) matches Some(r) && rat_eq(r, v[i]) && rat_wf(r) && in_range(r),
    decreases u.len() - k,
{
    lemma_reduce(rat_int(0));
    if k == u.len() {
        assert(rat_eq(acc, v[i]));
    } else {
        let vk = v[k];
        if k < i {
            lemma_checked_units(vk);
            assert(checked(rat_mul(u[k], vk)) == Some(rat_int(0)));
            lemma_checked_units(rat_int(0));
            assert(checked(rat_add(rat_int(0), rat_int(0))) == Some(rat_int(0)));
            lemma_dot_unit_left(u, v, i, k + 1, rat_int(0));
        } else if k == i {
            lemma_checked_units(vk);
            assert(checked(rat_mul(u[k], vk)) == Some(reduce(vk)));
            lemma_checked_units(reduce(vk));
            assert(checked(rat_add(rat_int(0), reduce(vk))) == Some(reduce(reduce(vk))));
            lemma_reduce(vk);
            lemma_reduce(reduce(vk));
            crate::rational::lemma_rat_eq_trans(reduce(reduce(vk)), reduce(vk), vk);
            lemma_dot_unit_left(u, v, i, k + 1, reduce(reduce(vk)));
        } else {
            lemma_checked_units(vk);
            assert(checked(rat_mul(u[k], vk)) == Some(rat_int(0)));
            lemma_checked_units(acc);
            assert(checked(rat_add(acc, rat_int(0))) == Some(reduce(acc)));
            lemma_reduce(acc);
            crate::rational::lemma_rat_eq_trans(reduce(acc), acc, v[i]);
            lemma_dot_unit_left(u, v, i, k + 1, reduce(acc));
        }
    }
}

/// A translation applied to a vector leaves it unchanged; applied to a
/// point, it shifts each coordinate by the matching offset (whenever the
/// exact shifted result is representable).
pub proof fn lemma_translation_tuple(x: Rat, y: Rat, z: Rat, t: TupleV)
    requires
        rat_wf(x) && in_range(x),
        rat_wf(y) && in_range(y),
        rat_wf(z) && in_range(z),
        crate::tuple::tup_wf(t),
        crate::tuple::tup_in_range(t),
    ensures
        rat_eq(t.w, rat_int(0)) ==> (mat_mul_tuple(mat_translation(x, y, z), t) matches Some(u)
            && crate::tuple::tup_eq(u, t) && crate::tuple::tup_near(u, t)),
        (rat_eq(t.w, rat_int(1)) && mat_mul_tuple(mat_translation(x, y, z), t) is Some) ==> ({
            let u = mat_mul_tuple(mat_translation(x, y, z), t).unwrap();
            rat_eq(u.x, rat_add(t.x, x)) && rat_eq(u.y, rat_add(t.y, y)) && rat_eq(
                u.z,
                rat_add(t.z, z),
            ) && rat_eq(u.w, rat_int(1))
        }),
{
    let tm = mat_translation(x, y, z);
    let v = tup_comps(t);
    assert(v.len() == 4);
    assert(forall|k: int| 0 <= k < 4 ==> rat_wf(#[trigger] v[k]) && in_range(v[k]));
    lemma_dot_affine(tm[0], v, 0, x, 0, rat_int(0));
    lemma_dot_affine(tm[1], v, 1, y, 0, rat_int(0));
    lemma_dot_affine(tm[2], v, 2, z, 0, rat_int(0));
    assert(forall|k: int|
        0 <= k < 4 ==> (#[trigger] tm[3][k]) == if k == 3 {
            rat_int(1)
        } else {
            rat_int(0)
        });
    lemma_dot_unit_left(tm[3], v, 3, 0, rat_int(0));
    if rat_eq(t.w, rat_int(0)) {
        let u = mat_mul_tuple(tm, t).unwrap();
        crate::tuple::lemma_tup_eq_implies_near(u, t);
    }
    if rat_eq(t.w, rat_int(1)) && mat_mul_tuple(tm, t) is Some {
        let u = mat_mul_tuple(tm, t).unwrap();
        crate::rational::lemma_rat_ops_wf(x, t.w);
        crate::rational::lemma_rat_ops_wf(y, t.w);
        crate::rational::lemma_rat_ops_wf(z, t.w);
        crate::rational::lemma_rat_mul_cong(x, x, t.w, rat_int(1));
        crate::rational::lemma_rat_mul_cong(y, y, t.w, rat_int(1));
        crate::rational::lemma_rat_mul_cong(z, z, t.w, rat_int(1));
        assert(rat_mul(x, rat_int(1)) == x) by {
            assert(x.n * 1 == x.n && x.d * 1 == x.d);
        }
        assert(rat_mul(y, rat_int(1)) == y) by {
            assert(y.n * 1 == y.n && y.d * 1 == y.d);
        }
        assert(rat_mul(z, rat_int(1)) == z) by {
            assert(z.n * 1 == z.n && z.d * 1 == z.d);
        }
        crate::rational::lemma_rat_ops_wf(t.x, rat_mul(x, t.w));
        crate::rational::lemma_rat_ops_wf(t.x, x);
        crate::rational::lemma_rat_add_cong(t.x, t.x, rat_mul(x, t.w), x);
        crate::rational::lemma_rat_eq_trans(u.x, rat_add(t.x, rat_mul(x, t.w)), rat_add(t.x, x));
        crate::rational::lemma_rat_ops_wf(t.y, rat_mul(y, t.w));
        crate::rational::lemma_rat_ops_wf(t.y, y);
        crate::rational::lemma_rat_add_cong(t.y, t.y, rat_mul(y, t.w), y);
        crate::rational::lemma_rat_eq_trans(u.y, rat_add(t.y, rat_mul(y, t.w)), rat_add(t.y, y));
        crate::rational::lemma_rat_ops_wf(t.z, rat_mul(z, t.w));
        crate::rational::lemma_rat_ops_wf(t.z, z);
        crate::rational::lemma_rat_add_cong(t.z, t.z, rat_mul(z, t.w), z);
        crate::rational::lemma_rat_eq_trans(u.z, rat_add(t.z, rat_mul(z, t.w)), rat_add(t.z, z));
        crate::rational::lemma_rat_eq_trans(u.w, t.w, rat_int(1));
    }
}

/// Folding an affine row (a unit at `p` plus a coefficient in the last
/// slot) against a column of four values.
proof fn lemma_dot_affine(u: Seq<Rat>, v: Seq<Rat>, p: int, c: Rat, k: int, acc: Rat)
    requires
        u.len() == 4,
        v.len() == 4,
        forall|s: int| 0 <= s < 4 ==> rat_wf(#[trigger] v[s]) && in_range(v[s]),
        rat_wf(c) && in_range(c),
        0 <= p < 3,
        forall|s: int|
            0 <= s < 3 ==> (#[trigger] u[s]) == if s == p {
                rat_int(1)
            } else {
                rat_int(0)
            },
        u[3] == c,
        0 <= k <= 3,
        k <= p ==> acc == rat_int(0),
        k > p ==> rat_wf(acc) && in_range(acc) && rat_eq(acc, v[p]),
    ensures
        v[3].n == 0 ==> (dot_rows(u, v, k, acc) matches Some(r) && rat_eq(r, v[p])),
        dot_rows(u, v, k, acc) matches Some(r) ==> rat_eq(r, rat_add(v[p], rat_mul(c, v[3])))
            && rat_wf(r) && in_range(r),
    decreases 3 - k,
{
    lemma_reduce(rat_int(0));
    crate::rational::lemma_rat_ops_wf(c, v[3]);
    crate::rational::lemma_rat_ops_wf(v[p], rat_mul(c, v[3]));
    if k == 3 {
        let tail = rat_mul(c, v[3]);
        if v[3].n == 0 {
            assert(tail.n == 0) by (nonlinear_arith)
                requires
                    v[3].n == 0,
                    tail.n == c.n * v[3].n,
            {}
            crate::rational::lemma_checked_zero_num(tail.d);
            assert(checked(rat_mul(u[3], v[3])) == Some(rat_int(0)));
            lemma_checked_units(acc);
            assert(checked(rat_add(acc, rat_int(0))) == Some(reduce(acc)));
            lemma_reduce(acc);
            crate::rational::lemma_rat_eq_trans(reduce(acc), acc, v[p]);
            crate::rational::lemma_rat_add_zero_num(v[p], tail);
            crate::rational::lemma_rat_ops_wf(v[p], tail);
            crate::rational::lemma_rat_eq_trans(reduce(acc), v[p], rat_add(v[p], tail));
            assert(dot_rows(u, v, 4, reduce(acc)) == Some(reduce(acc)));
        } else {
            if checked(rat_mul(u[3], v[3])) is Some {
                crate::rational::lemma_checked_some(rat_mul(c, v[3]));
                let tv = checked(rat_mul(c, v[3])).unwrap();
                if checked(rat_add(acc, tv)) is Some {
                    crate::rational::lemma_rat_ops_wf(acc, tv);
                    crate::rational::lemma_checked_some(rat_add(acc, tv));
                    let r = checked(rat_add(acc, tv)).unwrap();
                    crate::rational::lemma_rat_add_cong(acc, v[p], tv, tail);
                    crate::rational::lemma_rat_eq_trans(
                        r,
                        rat_add(acc, tv),
                        rat_add(v[p], tail),
                    );
                    assert(dot_rows(u, v, 4, r) == Some(r));
                }
            }
        }
    } else {
        let uk = u[k];
        let vk = v[k];
        if k < p {
            lemma_checked_units(vk);
            assert(checked(rat_mul(rat_int(0), vk)) == Some(rat_int(0)));
            lemma_checked_units(rat_int(0));
            assert(checked(rat_add(rat_int(0), rat_int(0))) == Some(rat_int(0)));
            lemma_dot_affine(u, v, p, c, k + 1, rat_int(0));
        } else if k == p {
            lemma_checked_units(vk);
            assert(checked(rat_mul(rat_int(1), vk)) == Some(reduce(vk)));
            lemma_checked_units(reduce(vk));
            assert(checked(rat_add(rat_int(0), reduce(vk))) == Some(reduce(reduce(vk))));
            lemma_reduce(vk);
            lemma_reduce(reduce(vk));
            crate::rational::lemma_rat_eq_trans(reduce(reduce(vk)), reduce(vk), vk);
            lemma_dot_affine(u, v, p, c, k + 1, reduce(reduce(vk)));
        } else {
            lemma_checked_units(vk);
            assert(checked(rat_mul(rat_int(0), vk)) == Some(rat_int(0)));
            lemma_checked_units(acc);
            assert(checked(rat_add(acc, rat_int(0))) == Some(reduce(acc)));
            lemma_reduce(acc);
            crate::rational::lemma_rat_eq_trans(reduce(acc), acc, v[p]);
            lemma_dot_affine(u, v, p, c, k + 1, reduce(acc));
        }
    }
}

/// A two-by-two matrix times its inverse is the identity, exactly,
/// whenever the inverse and the product are representable.
pub proof fn lemma_inverse_product_2x2(m: MatrixV)
    requires
        mat_square(m),
        m.len() == 2,
        mat_wf(m),
        mat_in_range(m),
        mat_inverse(m) is Some,
        mat_mul(m, mat_inverse(m).unwrap()) is Some,
    ensures
        mat_eq(mat_mul(m, mat_inverse(m).unwrap()).unwrap(), mat_identity(2)),
        mat_near(mat_mul(m, mat_inverse(m).unwrap()).unwrap(), mat_identity(2)),
{
    let a = m[0][0];
    let b = m[0][1];
    let c = m[1][0];
    let d = m[1][1];
    assert(rat_wf(a) && in_range(a));
    assert(rat_wf(b) && in_range(b));
    assert(rat_wf(c) && in_range(c));
    assert(rat_wf(d) && in_range(d));
    // The determinant equals `a*d - b*c`.
    lemma_rat_ops_wf(a, d);
    lemma_rat_ops_wf(b, c);
    crate::rational::lemma_checked_some(rat_mul(a, d));
    crate::rational::lemma_checked_some(rat_mul(b, c));
    let u = checked(rat_mul(a, d)).unwrap();
    let v = checked(rat_mul(b, c)).unwrap();
    lemma_rat_ops_wf(u, v);
    crate::rational::lemma_checked_some(rat_sub(u, v));
    let dv = mat_det(m).unwrap();
    let det_raw = rat_sub(rat_mul(a, d), rat_mul(b, c));
    lemma_rat_ops_wf(rat_mul(a, d), rat_mul(b, c));
    crate::rational::lemma_rat_add_cong(u, rat_mul(a, d), v, rat_mul(b, c));
    crate::rational::lemma_rat_eq_trans(dv, rat_sub(u, v), det_raw);
    assert(dv.n != 0);
    // The four cofactors of a two-by-two matrix.
    let sub00 = mat_submatrix(m, 0, 0);
    let sub01 = mat_submatrix(m, 0, 1);
    let sub10 = mat_submatrix(m, 1, 0);
    let sub11 = mat_submatrix(m, 1, 1);
    assert(sub00[0][0] == d && sub00.len() == 1);
    assert(sub01[0][0] == c && sub01.len() == 1);
    assert(sub10[0][0] == b && sub10.len() == 1);
    assert(sub11[0][0] == a && sub11.len() == 1);
    assert(mat_cofactor(m, 0, 0) == Some(d));
    assert(mat_cofactor(m, 0, 1) == Some(rat_neg(c)));
    assert(mat_cofactor(m, 1, 0) == Some(rat_neg(b)));
    assert(mat_cofactor(m, 1, 1) == Some(a));
    // The entries of the inverse.
    let inv = mat_inverse(m).unwrap();
    assert(inv.len() == 2 && inv[0].len() == 2 && inv[1].len() == 2);
    assert(mat_inv_entry(m, dv, 0, 0) is Some);
    assert(mat_inv_entry(m, dv, 0, 1) is Some);
    assert(mat_inv_entry(m, dv, 1, 0) is Some);
    assert(mat_inv_entry(m, dv, 1, 1) is Some);
    lemma_rat_ops_wf(d, dv);
    lemma_rat_ops_wf(a, dv);
    lemma_rat_ops_wf(rat_neg(b), dv);
    lemma_rat_ops_wf(rat_neg(c), dv);
    crate::rational::lemma_checked_some(rat_div(d, dv));
    crate::rational::lemma_checked_some(rat_div(rat_neg(c), dv));
    crate::rational::lemma_checked_some(rat_div(rat_neg(b), dv));
    crate::rational::lemma_checked_some(rat_div(a, dv));
    let e00 = inv[0][0];
    let e01 = inv[0][1];
    let e10 = inv[1][0];
    let e11 = inv[1][1];
    assert(e00 == checked(rat_div(d, dv)).unwrap());
    assert(e01 == checked(rat_div(rat_neg(b), dv)).unwrap());
    assert(e10 == checked(rat_div(rat_neg(c), dv)).unwrap());
    assert(e11 == checked(rat_div(a, dv)).unwrap());
    // The entries of the product, each a two-term dot product.
    let p = mat_mul(m, inv).unwrap();
    assert(mat_cols(inv) == 2);
    assert(p.len() == 2 && p[0].len() == 2 && p[1].len() == 2);
    assert(mat_mul_entry(m, inv, 0, 0) is Some);
    assert(mat_mul_entry(m, inv, 0, 1) is Some);
    assert(mat_mul_entry(m, inv, 1, 0) is Some);
    assert(mat_mul_entry(m, inv, 1, 1) is Some);
    let col0 = mat_column(inv, 0);
    let col1 = mat_column(inv, 1);
    assert(col0.len() == 2 && col0[0] == e00 && col0[1] == e10);
    assert(col1.len() == 2 && col1[0] == e01 && col1[1] == e11);
    lemma_dot2(m[0], col0);
    lemma_dot2(m[0], col1);
    lemma_dot2(m[1], col0);
    lemma_dot2(m[1], col1);
    assert(p[0][0] == mat_mul_entry(m, inv, 0, 0).unwrap());
    assert(p[0][1] == mat_mul_entry(m, inv, 0, 1).unwrap());
    assert(p[1][0] == mat_mul_entry(m, inv, 1, 0).unwrap());
    assert(p[1][1] == mat_mul_entry(m, inv, 1, 1).unwrap());
    // Entry (0, 0): `(a*d + b*(-c)) / det == 1`.
    let ad = rat_mul(a, d);
    let bc = rat_mul(b, c);
    lemma_rat_ops_wf(dv, dv);
    lemma_rat_ops_wf(det_raw, dv);
    assert(rat_mul(b, rat_neg(c)) == rat_neg(rat_mul(b, c))) by (nonlinear_arith) {}
    assert(rat_mul(c, rat_neg(b)) == rat_neg(rat_mul(c, b))) by (nonlinear_arith) {}
    assert(rat_mul(a, rat_neg(b)) == rat_neg(rat_mul(a, b))) by (nonlinear_arith) {}
    assert(rat_mul(d, rat_neg(c)) == rat_neg(rat_mul(d, c))) by (nonlinear_arith) {}
    crate::rational::lemma_rat_mul_comm(c, b);
    crate::rational::lemma_rat_mul_comm(d, a);
    crate::rational::lemma_rat_mul_comm(b, a);
    crate::rational::lemma_rat_mul_comm(d, c);
    lemma_entry_over_det(p[0][0], a, e00, d, b, e10, rat_neg(c), dv);
    let num00 = rat_add(ad, rat_neg(bc));
    lemma_rat_ops_wf(ad, rat_neg(bc));
    lemma_add_neg_is_sub(ad, bc);
    lemma_rat_ops_wf(num00, dv);
    crate::rational::lemma_rat_eq_trans(num00, det_raw, dv);
    crate::rational::lemma_rat_div_cong(num00, dv, dv);
    crate::rational::lemma_rat_eq_trans(p[0][0], rat_div(num00, dv), rat_div(dv, dv));
    crate::rational::lemma_div_self(dv);
    crate::rational::lemma_rat_eq_trans(p[0][0], rat_div(dv, dv), rat_int(1));
    // Entry (0, 1): `(a*(-b) + b*a) / det == 0`.
    lemma_entry_over_det(p[0][1], a, e01, rat_neg(b), b, e11, a, dv);
    lemma_rat_ops_wf(a, b);
    let num01 = rat_add(rat_neg(rat_mul(a, b)), rat_mul(a, b));
    assert(num01.n == 0) by (nonlinear_arith)
        requires
            num01 == rat_add(rat_neg(rat_mul(a, b)), rat_mul(a, b)),
    {}
    lemma_rat_ops_wf(rat_neg(rat_mul(a, b)), rat_mul(a, b));
    lemma_div_num_zero(num01, dv);
    lemma_rat_ops_wf(num01, dv);
    crate::rational::lemma_rat_eq_trans(p[0][1], rat_div(num01, dv), rat_int(0));
    // Entry (1, 0): `(c*d + d*(-c)) / det == 0`.
    lemma_entry_over_det(p[1][0], c, e00, d, d, e10, rat_neg(c), dv);
    lemma_rat_ops_wf(c, d);
    let num10 = rat_add(rat_mul(c, d), rat_neg(rat_mul(c, d)));
    assert(num10.n == 0) by (nonlinear_arith)
        requires
            num10 == rat_add(rat_mul(c, d), rat_neg(rat_mul(c, d))),
    {}
    lemma_rat_ops_wf(rat_mul(c, d), rat_neg(rat_mul(c, d)));
    lemma_div_num_zero(num10, dv);
    lemma_rat_ops_wf(num10, dv);
    crate::rational::lemma_rat_eq_trans(p[1][0], rat_div(num10, dv), rat_int(0));
    // Entry (1, 1): `(c*(-b) + d*a) / det == 1`.
    lemma_entry_over_det(p[1][1], c, e01, rat_neg(b), d, e11, a, dv);
    let num11 = rat_add(rat_neg(bc), ad);
    lemma_rat_ops_wf(rat_neg(bc), ad);
    lemma_add_neg_is_sub(ad, bc);
    lemma_rat_ops_wf(num11, dv);
    crate::rational::lemma_rat_eq_trans(num11, det_raw, dv);
    crate::rational::lemma_rat_div_cong(num11, dv, dv);
    crate::rational::lemma_rat_eq_trans(p[1][1], rat_div(num11, dv), rat_div(dv, dv));
    crate::rational::lemma_rat_eq_trans(p[1][1], rat_div(dv, dv), rat_int(1));
    // Gather the four entries into elementwise equality with the identity.
    assert(mat_identity(2)[0][0] == rat_int(1));
    assert(mat_identity(2)[0][1] == rat_int(0));
    assert(mat_identity(2)[1][0] == rat_int(0));
    assert(mat_identity(2)[1][1] == rat_int(1));
    assert(mat_eq(p, mat_identity(2)));
    assert(mat_wf(p)) by {
        assert forall|i: int, j: int|
            0 <= i < p.len() && 0 <= j < p[i].len() implies rat_wf(#[trigger] p[i][j]) by {
            assert((i == 0 || i == 1) && (j == 0 || j == 1));
        }
    }
    assert(mat_wf(mat_identity(2)));
    lemma_mat_eq_implies_near(p, mat_identity(2));
}

/// Adding a negation is subtracting, in either operand order.
proof fn lemma_add_neg_is_sub(x: Rat, y: Rat)
    requires
        rat_wf(x),
        rat_wf(y),
    ensures
        rat_eq(rat_add(x, rat_neg(y)), rat_sub(x, y)),
        rat_eq(rat_add(rat_neg(y), x), rat_sub(x, y)),
{
    assert(rat_eq(rat_add(x, rat_neg(y)), rat_sub(x, y)) && rat_eq(
        rat_add(rat_neg(y), x),
        rat_sub(x, y),
    )) by (nonlinear_arith)
        requires
            1 <= x.d,
            1 <= y.d,
    {}
}

/// A fraction with a zero numerator denotes zero.
proof fn lemma_div_num_zero(num: Rat, dv: Rat)
    requires
        rat_wf(num),
        rat_wf(dv),
        dv.n != 0,
        num.n == 0,
    ensures
        rat_eq(rat_div(num, dv), rat_int(0)),
{
    assert(rat_eq(rat_div(num, dv), rat_int(0))) by (nonlinear_arith)
        requires
            num.n == 0,
            rat_div(num, dv) == (if dv.n >= 0 {
                Rat { n: num.n * dv.d, d: num.d * dv.n }
            } else {
                Rat { n: num.n * -dv.d, d: num.d * -dv.n }
            }),
    {}
}

/// A two-term dot product that succeeds equals the sum of the two exact
/// products.
proof fn lemma_dot2(u: Seq<Rat>, v: Seq<Rat>)
    requires
        u.len() == 2,
        v.len() == 2,
        forall|t: int| 0 <= t < 2 ==> rat_wf(#[trigger] u[t]) && in_range(u[t]),
        forall|t: int| 0 <= t < 2 ==> rat_wf(#[trigger] v[t]) && in_range(v[t]),
    ensures
        dot_rows(u, v, 0, rat_int(0)) matches Some(r) ==> rat_eq(
            r,
            rat_add(rat_mul(u[0], v[0]), rat_mul(u[1], v[1])),
        ) && rat_wf(r),
{
    lemma_rat_ops_wf(u[0], v[0]);
    lemma_rat_ops_wf(u[1], v[1]);
    if checked(rat_mul(u[0], v[0])) is Some {
        crate::rational::lemma_checked_some(rat_mul(u[0], v[0]));
        let t0 = checked(rat_mul(u[0], v[0])).unwrap();
        lemma_checked_units(t0);
        assert(checked(rat_add(rat_int(0), t0)) == Some(reduce(t0)));
        lemma_reduce(t0);
        crate::rational::lemma_rat_eq_trans(reduce(t0), t0, rat_mul(u[0], v[0]));
        assert(dot_rows(u, v, 0, rat_int(0)) == dot_rows(u, v, 1, reduce(t0)));
        if checked(rat_mul(u[1], v[1])) is Some {
            crate::rational::lemma_checked_some(rat_mul(u[1], v[1]));
            let t1 = checked(rat_mul(u[1], v[1])).unwrap();
            if checked(rat_add(reduce(t0), t1)) is Some {
                lemma_rat_ops_wf(reduce(t0), t1);
                crate::rational::lemma_checked_some(rat_add(reduce(t0), t1));
                let r = checked(rat_add(reduce(t0), t1)).unwrap();
                crate::rational::lemma_rat_add_cong(reduce(t0), rat_mul(u[0], v[0]), t1, rat_mul(
                    u[1],
                    v[1],
                ));
                lemma_rat_ops_wf(rat_mul(u[0], v[0]), rat_mul(u[1], v[1]));
                crate::rational::lemma_rat_eq_trans(
                    r,
                    rat_add(reduce(t0), t1),
                    rat_add(rat_mul(u[0], v[0]), rat_mul(u[1], v[1])),
                );
                assert(dot_rows(u, v, 2, r) == Some(r));
                assert(dot_rows(u, v, 1, reduce(t0)) == Some(r));
            }
        }
    }
}

/// An entry equal to `u0*e0 + u1*e1`, with each factor a cofactor over the
/// determinant, equals the combined numerator over the determinant.
proof fn lemma_entry_over_det(r: Rat, u0: Rat, e0: Rat, q0: Rat, u1: Rat, e1: Rat, q1: Rat, dv: Rat)
    requires
        rat_wf(r),
        rat_wf(u0) && rat_wf(e0) && rat_wf(q0),
        rat_wf(u1) && rat_wf(e1) && rat_wf(q1),
        rat_wf(dv),
        dv.n != 0,
        rat_eq(r, rat_add(rat_mul(u0, e0), rat_mul(u1, e1))),
        rat_eq(e0, rat_div(q0, dv)),
        rat_eq(e1, rat_div(q1, dv)),
    ensures
        rat_eq(r, rat_div(rat_add(rat_mul(u0, q0), rat_mul(u1, q1)), dv)),
{
    lemma_rat_ops_wf(q0, dv);
    lemma_rat_ops_wf(q1, dv);
    lemma_rat_ops_wf(u0, e0);
    lemma_rat_ops_wf(u1, e1);
    lemma_rat_ops_wf(u0, rat_div(q0, dv));
    lemma_rat_ops_wf(u1, rat_div(q1, dv));
    lemma_rat_ops_wf(u0, q0);
    lemma_rat_ops_wf(u1, q1);
    crate::rational::lemma_rat_mul_cong(u0, u0, e0, rat_div(q0, dv));
    crate::rational::lemma_mul_div(u0, q0, dv);
    lemma_rat_ops_wf(rat_mul(u0, q0), dv);
    crate::rational::lemma_rat_eq_trans(
        rat_mul(u0, e0),
        rat_mul(u0, rat_div(q0, dv)),
        rat_div(rat_mul(u0, q0), dv),
    );
    crate::rational::lemma_rat_mul_cong(u1, u1, e1, rat_div(q1, dv));
    crate::rational::lemma_mul_div(u1, q1, dv);
    lemma_rat_ops_wf(rat_mul(u1, q1), dv);
    crate::rational::lemma_rat_eq_trans(
        rat_mul(u1, e1),
        rat_mul(u1, rat_div(q1, dv)),
        rat_div(rat_mul(u1, q1), dv),
    );
    crate::tuple::lemma_add_over(
        rat_mul(u0, e0),
        rat_mul(u0, q0),
        rat_mul(u1, e1),
        rat_mul(u1, q1),
        dv,
    );
    lemma_rat_ops_wf(rat_mul(u0, e0), rat_mul(u1, e1));
    crate::rational::lemma_rat_eq_trans(
        r,
        rat_add(rat_mul(u0, e0), rat_mul(u1, e1)),
        rat_div(rat_add(rat_mul(u0, q0), rat_mul(u1, q1)), dv),
    );
}

/// A square submatrix of a square matrix is square and one smaller.
pub proof fn lemma_submatrix_square(m: MatrixV, r: int, c: int)
    requires
        mat_square(m),
        2 <= m.len(),
        0 <= r < m.len(),
        0 <= c < m.len(),
    ensures
        mat_square(mat_submatrix(m, r, c)),
        mat_submatrix(m, r, c).len() == m.len() - 1,
{
    let sm = mat_submatrix(m, r, c);
    assert(sm.len() == m.len() - 1);
    assert(forall|i: int| 0 <= i < sm.len() ==> (#[trigger] sm[i]).len() == mat_cols(m) - 1);
    assert(mat_cols(sm) == sm[0].len());
}

/// A matrix of exact scalars, stored row-major.
#[derive(Clone, Debug)]
pub struct Matrix {
    pub rows: Vec<Vec<Scalar>>,
}

impl View for Matrix {
    type V = MatrixV;

    open spec fn view(&self) -> MatrixV {
        self.rows.deep_view()
    }
}

impl Matrix {
    /// Every matrix models well-formed, representable entries.
    pub fn wf_facts(&self)
        ensures
            mat_wf(self@),
            mat_in_range(self@),
            self@.len() == self.rows@.len(),
            forall|i: int| 0 <= i < self@.len() ==> (#[trigger] self@[i]).len() == self.rows@[i]@.len(),
    {
        let ghost v = self@;
        let mut i: usize = 0;
        while i < self.rows.len()
            invariant
                0 <= i <= self.rows.len(),
                v == self@,
                v.len() == self.rows@.len(),
                forall|p: int| 0 <= p < v.len() ==> (#[trigger] v[p]).len() == self.rows@[p]@.len(),
                forall|p: int, q: int|
                    0 <= p < i && 0 <= q < v[p].len() ==> rat_wf(#[trigger] v[p][q]) && in_range(
                        v[p][q],
                    ),
            decreases self.rows.len() - i,
        {
            let row = &self.rows[i];
            let mut j: usize = 0;
            while j < row.len()
                invariant
                    0 <= j <= row.len(),
                    0 <= i < self.rows.len(),
                    v == self@,
                    v.len() == self.rows@.len(),
                    row == self.rows@[i as int],
                    forall|p: int| 0 <= p < v.len() ==> (#[trigger] v[p]).len() == self.rows@[p]@.len(),
                    forall|p: int, q: int|
                        0 <= p < i && 0 <= q < v[p].len() ==> rat_wf(#[trigger] v[p][q])
                            && in_range(v[p][q]),
                    forall|q: int|
                        0 <= q < j ==> rat_wf(#[trigger] v[i as int][q]) && in_range(
                            v[i as int][q],
                        ),
                decreases row.len() - j,
            {
                row[j].wf_facts();
                assert(v[i as int][j as int] == row@[j as int]@);
                j += 1;
            }
            i += 1;
        }
    }

    /// Wraps the given rows, unchanged.
    pub fn new(rows: Vec<Vec<Scalar>>) -> (r: Matrix)
        ensures
            r@ == rows.deep_view(),
    {
        Matrix { rows }
    }

    /// The `size`-by-`size` identity matrix.
    pub fn identity(size: u32) -> (r: Matrix)
        ensures
            r@ == mat_identity(size as nat),
    {
        let one = Scalar::from_int(1);
        let zero = Scalar::from_int(0);
        let mut rows: Vec<Vec<Scalar>> = Vec::new();
        let mut i: u32 = 0;
        while i < size
            invariant
                0 <= i <= size,
                rows@.len() == i as int,
                one@ == rat_int(1),
                zero@ == rat_int(0),
                forall|p: int|
                    0 <= p < i as int ==> (#[trigger] rows.deep_view()[p]) == mat_identity(
                        size as nat,
                    )[p],
            decreases size - i,
        {
            let mut row: Vec<Scalar> = Vec::new();
            let mut j: u32 = 0;
            while j < size
                invariant
                    0 <= j <= size,
                    0 <= i < size,
                    row@.len() == j as int,
                    one@ == rat_int(1),
                    zero@ == rat_int(0),
                    forall|q: int|
                        0 <= q < j as int ==> (#[trigger] row.deep_view()[q]) == mat_identity(
                            size as nat,
                        )[i as int][q],
                decreases size - j,
            {
                let ghost pre = row;
                if i == j {
                    row.push(one);
                    proof {
                        lemma_push_deep(pre, row, one);
                    }
                } else {
                    row.push(zero);
                    proof {
                        lemma_push_deep(pre, row, zero);
                    }
                }
                j += 1;
            }
            proof {
                assert(row.deep_view() =~= mat_identity(size as nat)[i as int]);
            }
            let ghost pre_rows = rows;
            rows.push(row);
            proof {
                lemma_push_deep(pre_rows, rows, row);
            }
            i += 1;
        }
        let r = Matrix { rows };
        proof {
            assert(r@ =~~= mat_identity(size as nat));
        }
        r
    }

    /// The transpose: the column view of this matrix.
    pub fn transpose(&self) -> (r: Matrix)
        requires
            mat_rect(self@),
        ensures
            r@ == mat_transpose(self@),
    {
        let cols = if self.rows.len() == 0 {
            0
        } else {
            self.rows[0].len()
        };
        let mut rows: Vec<Vec<Scalar>> = Vec::new();
        let mut j: usize = 0;
        while j < cols
            invariant
                0 <= j <= cols,
                cols == mat_cols(self@),
                mat_rect(self@),
                self@.len() == self.rows@.len(),
                rows@.len() == j as int,
                forall|p: int|
                    0 <= p < j as int ==> (#[trigger] rows.deep_view()[p]) == mat_transpose(
                        self@,
                    )[p],
            decreases cols - j,
        {
            let mut row: Vec<Scalar> = Vec::new();
            let mut i: usize = 0;
            while i < self.rows.len()
                invariant
                    0 <= i <= self.rows.len(),
                    0 <= j < cols,
                    cols == mat_cols(self@),
                    mat_rect(self@),
                    self@.len() == self.rows@.len(),
                    row@.len() == i as int,
                    forall|q: int|
                        0 <= q < i as int ==> (#[trigger] row.deep_view()[q]) == self@[q][j as int],
                decreases self.rows.len() - i,
            {
                proof {
                    assert(self@[i as int].len() == self.rows@[i as int]@.len());
                }
                let ghost pre = row;
                let x = self.rows[i][j];
                row.push(x);
                proof {
                    lemma_push_deep(pre, row, x);
                    assert(x@ == self@[i as int][j as int]);
                }
                i += 1;
            }
            proof {
                assert(row.deep_view() =~= mat_transpose(self@)[j as int]);
            }
            let ghost pre_rows = rows;
            rows.push(row);
            proof {
                lemma_push_deep(pre_rows, rows, row);
            }
            j += 1;
        }
        let r = Matrix { rows };
        proof {
            assert(r@ =~~= mat_transpose(self@));
        }
        r
    }

    /// The matrix with row `row` and column `column` removed.
    pub fn submatrix(&self, row: usize, column: usize) -> (r: Matrix)
        requires
            mat_rect(self@),
            1 <= self@.len(),
            0 <= row < self@.len(),
            0 <= column < mat_cols(self@),
        ensures
            r@ == mat_submatrix(self@, row as int, column as int),
    {
        let mut rows: Vec<Vec<Scalar>> = Vec::new();
        let mut i: usize = 0;
        while i < self.rows.len()
            invariant
                0 <= i <= self.rows.len(),
                mat_rect(self@),
                row < self@.len(),
                column < mat_cols(self@),
                self@.len() == self.rows@.len(),
                rows@.len() == if i <= row {
                    i as int
                } else {
                    i - 1
                },
                forall|p: int|
                    0 <= p < rows@.len() ==> (#[trigger] rows.deep_view()[p]) == mat_submatrix(
                        self@,
                        row as int,
                        column as int,
                    )[p],
            decreases self.rows.len() - i,
        {
            if i != row {
                let source = &self.rows[i];
                proof {
                    assert(self@[i as int].len() == self.rows@[i as int]@.len());
                }
                let mut new_row: Vec<Scalar> = Vec::new();
                let mut j: usize = 0;
                while j < source.len()
                    invariant
                        0 <= j <= source.len(),
                        0 <= i < self.rows.len(),
                        i != row,
                        mat_rect(self@),
                        row < self@.len(),
                        column < mat_cols(self@),
                        self@.len() == self.rows@.len(),
                        source == self.rows@[i as int],
                        source@.len() == mat_cols(self@),
                        new_row@.len() == if j <= column {
                            j as int
                        } else {
                            j - 1
                        },
                        forall|q: int|
                            0 <= q < new_row@.len() ==> (#[trigger] new_row.deep_view()[q])
                                == mat_submatrix(self@, row as int, column as int)[rows@.len() as int][q],
                        rows@.len() < self@.len() - 1,
                        rows@.len() == if i <= row {
                            i as int
                        } else {
                            i - 1
                        },
                    decreases source.len() - j,
                {
                    if j != column {
                        let ghost pre = new_row;
                        let x = source[j];
                        new_row.push(x);
                        proof {
                            lemma_push_deep(pre, new_row, x);
                            let sm = mat_submatrix(self@, row as int, column as int);
                            let p = rows@.len() as int;
                            let q = new_row@.len() - 1;
                            assert(sm[p][q] == self@[if p < row {
                                p
                            } else {
                                p + 1
                            }][
                                if q < column {
                                    q
                                } else {
                                    q + 1
                                }
                            ]);
                            assert(x@ == self@[i as int][j as int]);
                        }
                    }
                    j += 1;
                }
                proof {
                    assert(new_row.deep_view() =~= mat_submatrix(self@, row as int, column as int)[rows@.len() as int]);
                }
                let ghost pre_rows = rows;
                rows.push(new_row);
                proof {
                    lemma_push_deep(pre_rows, rows, new_row);
                }
            }
            i += 1;
        }
        let r = Matrix { rows };
        proof {
            assert(r@ =~~= mat_submatrix(self@, row as int, column as int));
        }
        r
    }
    /// The determinant, by Laplace expansion along the first row.
    pub fn determinant(&self) -> (r: Option<Scalar>)
        requires
            mat_square(self@),
            1 <= self@.len(),
        ensures
            view_opt(r) == mat_det(self@),
        decreases self@.len(), 2int,
    {
        proof {
            assert(self@.len() == self.rows@.len());
            assert forall|i: int| 0 <= i < self@.len() implies (#[trigger] self.rows@[i]@.len())
                == self@.len() by {
                assert(self@[i].len() == self.rows@[i]@.len());
            }
        }
        if self.rows.len() == 1 {
            Some(self.rows[0][0])
        } else if self.rows.len() == 2 {
            let u = match self.rows[0][0].mul(&self.rows[1][1]) {
                Some(v) => v,
                None => {
                    return None;
                },
            };
            let v = match self.rows[0][1].mul(&self.rows[1][0]) {
                Some(v) => v,
                None => {
                    return None;
                },
            };
            u.sub(&v)
        } else {
            let mut acc = Scalar::from_int(0);
            let cols = self.rows[0].len();
            let mut j: usize = 0;
            while j < cols
                invariant
                    0 <= j <= cols,
                    cols == mat_cols(self@),
                    mat_square(self@),
                    3 <= self@.len(),
                    self@.len() == self.rows@.len(),
                    forall|i: int|
                        0 <= i < self@.len() ==> (#[trigger] self.rows@[i]@.len()) == self@.len(),
                    mat_det(self@) == mat_det_sum(self@, j as int, acc@),
                decreases cols - j,
            {
                let c = match self.cofactor(0, j) {
                    Some(v) => v,
                    None => {
                        return None;
                    },
                };
                let t = match self.rows[0][j].mul(&c) {
                    Some(v) => v,
                    None => {
                        return None;
                    },
                };
                acc = match acc.add(&t) {
                    Some(v) => v,
                    None => {
                        return None;
                    },
                };
                j += 1;
            }
            Some(acc)
        }
    }

    /// The determinant of the submatrix at `(row, column)`.
    pub fn minor(&self, row: usize, column: usize) -> (r: Option<Scalar>)
        requires
            mat_square(self@),
            2 <= self@.len(),
            0 <= row < self@.len(),
            0 <= column < self@.len(),
        ensures
            view_opt(r) == mat_det(mat_submatrix(self@, row as int, column as int)),
        decreases self@.len(), 0int,
    {
        proof {
            lemma_submatrix_square(self@, row as int, column as int);
        }
        self.submatrix(row, column).determinant()
    }

    /// The minor, negated when `row + column` is odd.
    pub fn cofactor(&self, row: usize, column: usize) -> (r: Option<Scalar>)
        requires
            mat_square(self@),
            2 <= self@.len(),
            0 <= row < self@.len(),
            0 <= column < self@.len(),
        ensures
            view_opt(r) == mat_cofactor(self@, row as int, column as int),
        decreases self@.len(), 1int,
    {
        let m = match self.minor(row, column) {
            Some(v) => v,
            None => {
                return None;
            },
        };
        if row % 2 == column % 2 {
            proof {
                assert((row as int + column as int) % 2 == 0);
            }
            Some(m)
        } else {
            proof {
                assert((row as int + column as int) % 2 != 0);
            }
            Some(m.neg())
        }
    }

    /// Whether the determinant is representable and exactly nonzero.
    pub fn is_invertible(&self) -> (r: Option<bool>)
        requires
            mat_square(self@),
            1 <= self@.len(),
        ensures
            r is Some <==> mat_det(self@) is Some,
            r matches Some(b) ==> mat_det(self@) matches Some(v) && b == (v.n != 0),
    {
        match self.determinant() {
            Some(d) => Some(!d.is_zero()),
            None => None,
        }
    }

    /// The inverse: each entry is the cofactor of the transposed position
    /// divided by the determinant. `None` when the matrix is singular or
    /// some exact intermediate is not representable.
    pub fn inverse(&self) -> (r: Option<Matrix>)
        requires
            mat_square(self@),
            2 <= self@.len(),
        ensures
            view_opt(r) == mat_inverse(self@),
    {
        let det = match self.determinant() {
            Some(d) => d,
            None => {
                return None;
            },
        };
        if det.is_zero() {
            return None;
        }
        let n = self.rows.len();
        proof {
            assert(self@.len() == self.rows@.len());
        }
        let mut rows: Vec<Vec<Scalar>> = Vec::new();
        let mut i: usize = 0;
        while i < n
            invariant
                0 <= i <= n,
                n as int == self@.len(),
                mat_square(self@),
                2 <= self@.len(),
                mat_det(self@) == Some(det@),
                det@.n != 0,
                rows@.len() == i as int,
                forall|p: int, q: int|
                    0 <= p < i && 0 <= q < n ==> (#[trigger] mat_inv_entry(self@, det@, p, q))
                        is Some,
                forall|p: int|
                    0 <= p < i as int ==> (#[trigger] rows.deep_view()[p]) == Seq::new(
                        n as nat,
                        |q: int|
                            match mat_inv_entry(self@, det@, p, q) {
                                Some(v) => v,
                                None => rat_int(0),
                            },
                    ),
            decreases n - i,
        {
            let mut row: Vec<Scalar> = Vec::new();
            let mut j: usize = 0;
            while j < n
                invariant
                    0 <= j <= n,
                    0 <= i < n,
                    n as int == self@.len(),
                    mat_square(self@),
                    2 <= self@.len(),
                    mat_det(self@) == Some(det@),
                    det@.n != 0,
                    row@.len() == j as int,
                    forall|q: int|
                        0 <= q < j ==> (#[trigger] mat_inv_entry(self@, det@, i as int, q))
                            is Some,
                    forall|q: int|
                        0 <= q < j as int ==> (#[trigger] row.deep_view()[q]) == match mat_inv_entry(
                            self@,
                            det@,
                            i as int,
                            q,
                        ) {
                            Some(v) => v,
                            None => rat_int(0),
                        },
                decreases n - j,
            {
                let c = match self.cofactor(j, i) {
                    Some(v) => v,
                    None => {
                        proof {
                            assert(mat_inv_entry(self@, det@, i as int, j as int) is None);
                        }
                        return None;
                    },
                };
                let e = match c.div(&det) {
                    Some(v) => v,
                    None => {
                        proof {
                            assert(mat_inv_entry(self@, det@, i as int, j as int) is None);
                        }
                        return None;
                    },
                };
                let ghost pre = row;
                row.push(e);
                proof {
                    lemma_push_deep(pre, row, e);
                }
                j += 1;
            }
            let ghost pre_rows = rows;
            proof {
                assert(row.deep_view() =~= Seq::new(
                    n as nat,
                    |q: int|
                        match mat_inv_entry(self@, det@, i as int, q) {
                            Some(v) => v,
                            None => rat_int(0),
                        },
                ));
            }
            rows.push(row);
            proof {
                lemma_push_deep(pre_rows, rows, row);
            }
            i += 1;
        }
        let r = Matrix { rows };
        proof {
            assert(mat_inverse(self@) is Some);
            assert(r@ =~~= mat_inverse(self@).unwrap());
        }
        Some(r)
    }
    /// Exact elementwise sum.
    pub fn add(&self, other: &Matrix) -> (r: Option<Matrix>)
        requires
            self@.len() == other@.len(),
            forall|i: int| 0 <= i < self@.len() ==> (#[trigger] self@[i]).len() == other@[i].len(),
        ensures
            view_opt(r) == mat_addsub(self@, other@, true),
    {
        add_matrix(self, other, true)
    }

    /// Exact elementwise difference.
    pub fn sub(&self, other: &Matrix) -> (r: Option<Matrix>)
        requires
            self@.len() == other@.len(),
            forall|i: int| 0 <= i < self@.len() ==> (#[trigger] self@[i]).len() == other@[i].len(),
        ensures
            view_opt(r) == mat_addsub(self@, other@, false),
    {
        add_matrix(self, other, false)
    }

    /// Exact matrix product: entry `(i, j)` is the dot product of row `i`
    /// of `self` with column `j` of `other`.
    pub fn mul(&self, other: &Matrix) -> (r: Option<Matrix>)
        requires
            mat_rect(self@),
            mat_rect(other@),
            mat_cols(self@) == other@.len(),
        ensures
            view_opt(r) == mat_mul(self@, other@),
    {
        let bt = other.transpose();
        let ghost a = self@;
        let ghost b = other@;
        let cols = bt.rows.len();
        proof {
            assert(bt@.len() == bt.rows@.len());
            assert(cols as int == mat_cols(b));
            assert forall|j: int| 0 <= j < cols implies (#[trigger] bt@[j]) == mat_column(b, j) by {
                assert(bt@[j] =~= mat_column(b, j));
            }
        }
        let mut rows: Vec<Vec<Scalar>> = Vec::new();
        let mut i: usize = 0;
        while i < self.rows.len()
            invariant
                0 <= i <= self.rows.len(),
                a == self@,
                b == other@,
                bt@ == mat_transpose(b),
                mat_rect(a),
                mat_rect(b),
                mat_cols(a) == b.len(),
                a.len() == self.rows@.len(),
                cols == bt.rows@.len(),
                cols as int == mat_cols(b),
                bt@.len() == bt.rows@.len(),
                forall|j: int| 0 <= j < cols ==> (#[trigger] bt@[j]) == mat_column(b, j),
                rows@.len() == i as int,
                forall|p: int, q: int|
                    0 <= p < i && 0 <= q < cols ==> (#[trigger] mat_mul_entry(a, b, p, q)) is Some,
                forall|p: int|
                    0 <= p < i as int ==> (#[trigger] rows.deep_view()[p]) == Seq::new(
                        mat_cols(b),
                        |q: int|
                            match mat_mul_entry(a, b, p, q) {
                                Some(v) => v,
                                None => rat_int(0),
                            },
                    ),
            decreases self.rows.len() - i,
        {
            proof {
                assert(a[i as int].len() == self.rows@[i as int]@.len());
            }
            let mut row: Vec<Scalar> = Vec::new();
            let mut j: usize = 0;
            while j < cols
                invariant
                    0 <= j <= cols,
                    0 <= i < self.rows.len(),
                    a == self@,
                    b == other@,
                    bt@ == mat_transpose(b),
                    mat_rect(a),
                    mat_rect(b),
                    mat_cols(a) == b.len(),
                    a.len() == self.rows@.len(),
                    cols == bt.rows@.len(),
                    cols as int == mat_cols(b),
                    bt@.len() == bt.rows@.len(),
                    forall|q: int| 0 <= q < cols ==> (#[trigger] bt@[q]) == mat_column(b, q),
                    row@.len() == j as int,
                    forall|q: int|
                        0 <= q < j ==> (#[trigger] mat_mul_entry(a, b, i as int, q)) is Some,
                    forall|q: int|
                        0 <= q < j as int ==> (#[trigger] row.deep_view()[q]) == match mat_mul_entry(
                            a,
                            b,
                            i as int,
                            q,
                        ) {
                            Some(v) => v,
                            None => rat_int(0),
                        },
                decreases cols - j,
            {
                proof {
                    assert(bt@[j as int].len() == bt.rows@[j as int]@.len());
                    assert(a[i as int] == self.rows@[i as int].deep_view());
                    assert(mat_column(b, j as int).len() == b.len());
                }
                let e = match dot_vecs(&self.rows[i], &bt.rows[j]) {
                    Some(v) => v,
                    None => {
                        proof {
                            assert(mat_mul_entry(a, b, i as int, j as int) is None);
                        }
                        return None;
                    },
                };
                let ghost pre = row;
                row.push(e);
                proof {
                    lemma_push_deep(pre, row, e);
                }
                j += 1;
            }
            proof {
                assert(row.deep_view() =~= Seq::new(
                    mat_cols(b),
                    |q: int|
                        match mat_mul_entry(a, b, i as int, q) {
                            Some(v) => v,
                            None => rat_int(0),
                        },
                ));
            }
            let ghost pre_rows = rows;
            rows.push(row);
            proof {
                lemma_push_deep(pre_rows, rows, row);
            }
            i += 1;
        }
        let r = Matrix { rows };
        proof {
            assert(mat_mul(a, b) is Some);
            assert(r@ =~~= mat_mul(a, b).unwrap());
        }
        Some(r)
    }

    /// A four-by-four matrix applied to a tuple.
    pub fn mul_tuple(&self, t: &Tuple) -> (r: Option<Tuple>)
        requires
            mat_rect(self@),
            self@.len() == 4,
            mat_cols(self@) == 4,
        ensures
            view_opt(r) == mat_mul_tuple(self@, t@),
    {
        let mut comps: Vec<Scalar> = Vec::new();
        comps.push(t.x);
        comps.push(t.y);
        comps.push(t.z);
        comps.push(t.w);
        proof {
            assert(comps.deep_view() =~= tup_comps(t@));
            assert forall|i: int| 0 <= i < 4 implies (#[trigger] self@[i]).len() == 4 by {}
            assert forall|i: int| 0 <= i < 4 implies (#[trigger] self.rows@[i]@.len()) == 4 by {
                assert(self@[i].len() == self.rows@[i]@.len());
            }
        }
        let x = match dot_vecs(&self.rows[0], &comps) {
            Some(v) => v,
            None => {
                return None;
            },
        };
        let y = match dot_vecs(&self.rows[1], &comps) {
            Some(v) => v,
            None => {
                return None;
            },
        };
        let z = match dot_vecs(&self.rows[2], &comps) {
            Some(v) => v,
            None => {
                return None;
            },
        };
        let w = match dot_vecs(&self.rows[3], &comps) {
            Some(v) => v,
            None => {
                return None;
            },
        };
        Some(Tuple { x, y, z, w })
    }

    /// The homogeneous translation matrix for `(x, y, z)`.
    pub fn translation(x: Scalar, y: Scalar, z: Scalar) -> (r: Matrix)
        ensures
            r@ == mat_translation(x@, y@, z@),
    {
        let one = Scalar::from_int(1);
        let zero = Scalar::from_int(0);
        let r = Matrix {
            rows: rows4(
                row4(one, zero, zero, x),
                row4(zero, one, zero, y),
                row4(zero, zero, one, z),
                row4(zero, zero, zero, one),
            ),
        };
        proof {
            assert(r@ =~~= mat_translation(x@, y@, z@));
        }
        r
    }

    /// The homogeneous scaling matrix for `(x, y, z)`.
    pub fn scaling(x: Scalar, y: Scalar, z: Scalar) -> (r: Matrix)
        ensures
            r@ == mat_scaling(x@, y@, z@),
    {
        let one = Scalar::from_int(1);
        let zero = Scalar::from_int(0);
        let r = Matrix {
            rows: rows4(
                row4(x, zero, zero, zero),
                row4(zero, y, zero, zero),
                row4(zero, zero, z, zero),
                row4(zero, zero, zero, one),
            ),
        };
        proof {
            assert(r@ =~~= mat_scaling(x@, y@, z@));
        }
        r
    }

    /// Rotation about the x axis; the caller supplies the cosine and sine
    /// of the angle.
    pub fn rotation_x(cos_t: Scalar, sin_t: Scalar) -> (r: Matrix)
        ensures
            r@ == mat_rotation_x(cos_t@, sin_t@),
    {
        let one = Scalar::from_int(1);
        let zero = Scalar::from_int(0);
        let r = Matrix {
            rows: rows4(
                row4(one, zero, zero, zero),
                row4(zero, cos_t, sin_t.neg(), zero),
                row4(zero, sin_t, cos_t, zero),
                row4(zero, zero, zero, one),
            ),
        };
        proof {
            assert(r@ =~~= mat_rotation_x(cos_t@, sin_t@));
        }
        r
    }

    /// Rotation about the y axis; the caller supplies the cosine and sine
    /// of the angle.
    pub fn rotation_y(cos_t: Scalar, sin_t: Scalar) -> (r: Matrix)
        ensures
            r@ == mat_rotation_y(cos_t@, sin_t@),
    {
        let one = Scalar::from_int(1);
        let zero = Scalar::from_int(0);
        let r = Matrix {
            rows: rows4(
                row4(cos_t, zero, sin_t, zero),
                row4(zero, one, zero, zero),
                row4(sin_t.neg(), zero, cos_t, zero),
                row4(zero, zero, zero, one),
            ),
        };
        proof {
            assert(r@ =~~= mat_rotation_y(cos_t@, sin_t@));
        }
        r
    }

    /// Rotation about the z axis; the caller supplies the cosine and sine
    /// of the angle.
    pub fn rotation_z(cos_t: Scalar, sin_t: Scalar) -> (r: Matrix)
        ensures
            r@ == mat_rotation_z(cos_t@, sin_t@),
    {
        let one = Scalar::from_int(1);
        let zero = Scalar::from_int(0);
        let r = Matrix {
            rows: rows4(
                row4(cos_t, sin_t.neg(), zero, zero),
                row4(sin_t, cos_t, zero, zero),
                row4(zero, zero, one, zero),
                row4(zero, zero, zero, one),
            ),
        };
        proof {
            assert(r@ =~~= mat_rotation_z(cos_t@, sin_t@));
        }
        r
    }

    /// The shear matrix with the six off-diagonal coefficients.
    pub fn shearing(xy: Scalar, xz: Scalar, yx: Scalar, yz: Scalar, zx: Scalar, zy: Scalar) -> (r:
        Matrix)
        ensures
            r@ == mat_shearing(xy@, xz@, yx@, yz@, zx@, zy@),
    {
        let one = Scalar::from_int(1);
        let zero = Scalar::from_int(0);
        let r = Matrix {
            rows: rows4(
                row4(one, xy, xz, zero),
                row4(yx, one, yz, zero),
                row4(zx, zy, one, zero),
                row4(zero, zero, zero, one),
            ),
        };
        proof {
            assert(r@ =~~= mat_shearing(xy@, xz@, yx@, yz@, zx@, zy@));
        }
        r
    }
}

/// A row of four scalars.
fn row4(a: Scalar, b: Scalar, c: Scalar, d: Scalar) -> (r: Vec<Scalar>)
    ensures
        r.deep_view() == seq![a@, b@, c@, d@],
{
    let mut r: Vec<Scalar> = Vec::new();
    r.push(a);
    r.push(b);
    r.push(c);
    r.push(d);
    proof {
        assert(r.deep_view() =~= seq![a@, b@, c@, d@]);
    }
    r
}

/// Four rows gathered into a grid.
fn rows4(r0: Vec<Scalar>, r1: Vec<Scalar>, r2: Vec<Scalar>, r3: Vec<Scalar>) -> (r: Vec<
    Vec<Scalar>,
>)
    ensures
        r.deep_view() == seq![r0.deep_view(), r1.deep_view(), r2.deep_view(), r3.deep_view()],
{
    let ghost g0 = r0.deep_view();
    let ghost g1 = r1.deep_view();
    let ghost g2 = r2.deep_view();
    let ghost g3 = r3.deep_view();
    let mut r: Vec<Vec<Scalar>> = Vec::new();
    r.push(r0);
    r.push(r1);
    r.push(r2);
    r.push(r3);
    proof {
        assert(r.deep_view() =~= seq![g0, g1, g2, g3]);
    }
    r
}

/// The exact dot product of two equally long vectors of scalars.
fn dot_vecs(u: &Vec<Scalar>, v: &Vec<Scalar>) -> (r: Option<Scalar>)
    requires
        u.deep_view().len() == v.deep_view().len(),
    ensures
        view_opt(r) == dot_rows(u.deep_view(), v.deep_view(), 0, rat_int(0)),
{
    let ghost us = u.deep_view();
    let ghost vs = v.deep_view();
    let mut acc = Scalar::from_int(0);
    let mut k: usize = 0;
    while k < u.len()
        invariant
            0 <= k <= u.len(),
            us == u.deep_view(),
            vs == v.deep_view(),
            us.len() == u@.len(),
            vs.len() == v@.len(),
            us.len() == vs.len(),
            dot_rows(us, vs, 0, rat_int(0)) == dot_rows(us, vs, k as int, acc@),
        decreases u.len() - k,
    {
        let t = match u[k].mul(&v[k]) {
            Some(x) => x,
            None => {
                proof {
                    assert(us[k as int] == u@[k as int]@);
                    assert(vs[k as int] == v@[k as int]@);
                }
                return None;
            },
        };
        let next = match acc.add(&t) {
            Some(x) => x,
            None => {
                proof {
                    assert(us[k as int] == u@[k as int]@);
                    assert(vs[k as int] == v@[k as int]@);
                }
                return None;
            },
        };
        proof {
            assert(us[k as int] == u@[k as int]@);
            assert(vs[k as int] == v@[k as int]@);
        }
        acc = next;
        k += 1;
    }
    Some(acc)
}

/// The elementwise sum (`plus`) or difference of two equally shaped
/// matrices.
fn add_matrix(matrix1: &Matrix, matrix2: &Matrix, plus: bool) -> (r: Option<Matrix>)
    requires
        matrix1@.len() == matrix2@.len(),
        forall|i: int|
            0 <= i < matrix1@.len() ==> (#[trigger] matrix1@[i]).len() == matrix2@[i].len(),
    ensures
        view_opt(r) == mat_addsub(matrix1@, matrix2@, plus),
{
    let ghost a = matrix1@;
    let ghost b = matrix2@;
    let mut rows: Vec<Vec<Scalar>> = Vec::new();
    let mut i: usize = 0;
    while i < matrix1.rows.len()
        invariant
            0 <= i <= matrix1.rows.len(),
            a == matrix1@,
            b == matrix2@,
            a.len() == b.len(),
            a.len() == matrix1.rows@.len(),
            b.len() == matrix2.rows@.len(),
            forall|p: int| 0 <= p < a.len() ==> (#[trigger] a[p]).len() == b[p].len(),
            rows@.len() == i as int,
            forall|p: int, q: int|
                0 <= p < i && 0 <= q < a[p].len() ==> (#[trigger] mat_addsub_entry(a, b, plus, p, q))
                    is Some,
            forall|p: int|
                0 <= p < i as int ==> (#[trigger] rows.deep_view()[p]) == Seq::new(
                    a[p].len(),
                    |q: int|
                        match mat_addsub_entry(a, b, plus, p, q) {
                            Some(v) => v,
                            None => rat_int(0),
                        },
                ),
        decreases matrix1.rows.len() - i,
    {
        proof {
            assert(a[i as int].len() == matrix1.rows@[i as int]@.len());
            assert(b[i as int].len() == matrix2.rows@[i as int]@.len());
        }
        let a_row = &matrix1.rows[i];
        let b_row = &matrix2.rows[i];
        let mut row: Vec<Scalar> = Vec::new();
        let mut j: usize = 0;
        while j < a_row.len()
            invariant
                0 <= j <= a_row.len(),
                0 <= i < matrix1.rows.len(),
                a == matrix1@,
                b == matrix2@,
                a.len() == b.len(),
                a.len() == matrix1.rows@.len(),
                b.len() == matrix2.rows@.len(),
                a_row == matrix1.rows@[i as int],
                b_row == matrix2.rows@[i as int],
                a_row@.len() == a[i as int].len(),
                b_row@.len() == b[i as int].len(),
                forall|p: int| 0 <= p < a.len() ==> (#[trigger] a[p]).len() == b[p].len(),
                row@.len() == j as int,
                forall|q: int|
                    0 <= q < j ==> (#[trigger] mat_addsub_entry(a, b, plus, i as int, q)) is Some,
                forall|q: int|
                    0 <= q < j as int ==> (#[trigger] row.deep_view()[q]) == match mat_addsub_entry(
                        a,
                        b,
                        plus,
                        i as int,
                        q,
                    ) {
                        Some(v) => v,
                        None => rat_int(0),
                    },
            decreases a_row.len() - j,
        {
            proof {
                assert(a[i as int][j as int] == a_row@[j as int]@);
                assert(b[i as int][j as int] == b_row@[j as int]@);
            }
            let e = if plus {
                match a_row[j].add(&b_row[j]) {
                    Some(v) => v,
                    None => {
                        proof {
                            assert(mat_addsub_entry(a, b, plus, i as int, j as int) is None);
                        }
                        return None;
                    },
                }
            } else {
                match a_row[j].sub(&b_row[j]) {
                    Some(v) => v,
                    None => {
                        proof {
                            assert(mat_addsub_entry(a, b, plus, i as int, j as int) is None);
                        }
                        return None;
                    },
                }
            };
            let ghost pre = row;
            row.push(e);
            proof {
                lemma_push_deep(pre, row, e);
            }
            j += 1;
        }
        proof {
            assert(row.deep_view() =~= Seq::new(
                a[i as int].len(),
                |q: int|
                    match mat_addsub_entry(a, b, plus, i as int, q) {
                        Some(v) => v,
                        None => rat_int(0),
                    },
            ));
        }
        let ghost pre_rows = rows;
        rows.push(row);
        proof {
            lemma_push_deep(pre_rows, rows, row);
        }
        i += 1;
    }
    let r = Matrix { rows };
    proof {
        assert(mat_addsub(a, b, plus) is Some);
        assert(r@ =~~= mat_addsub(a, b, plus).unwrap());
    }
    Some(r)
}

impl PartialEq for Matrix {
    /// Elementwise approximate equality under the canonical tolerance;
    /// matrices of different shapes differ. Like any tolerance-based
    /// comparison, this relation is reflexive and symmetric but not
    /// transitive.
    fn eq(&self, other: &Matrix) -> (r: bool) {
        if self.rows.len() != other.rows.len() {
            return false;
        }
        let mut i: usize = 0;
        while i < self.rows.len()
            invariant
                0 <= i <= self.rows.len(),
                self@.len() == self.rows@.len(),
                other@.len() == other.rows@.len(),
                self@.len() == other@.len(),
                forall|p: int|
                    0 <= p < i ==> (#[trigger] self@[p]).len() == other@[p].len(),
                forall|p: int, q: int|
                    0 <= p < i && 0 <= q < self@[p].len() ==> crate::util::rat_near(
                        #[trigger] self@[p][q],
                        other@[p][q],
                    ),
            decreases self.rows.len() - i,
        {
            let a = &self.rows[i];
            let b = &other.rows[i];
            if a.len() != b.len() {
                proof {
                    assert(self@[i as int].len() == a@.len());
                    assert(other@[i as int].len() == b@.len());
                }
                return false;
            }
            let mut j: usize = 0;
            while j < a.len()
                invariant
                    0 <= j <= a.len(),
                    0 <= i < self.rows.len(),
                    self@.len() == self.rows@.len(),
                    other@.len() == other.rows@.len(),
                    self@.len() == other@.len(),
                    a == self.rows@[i as int],
                    b == other.rows@[i as int],
                    a@.len() == b@.len(),
                    forall|p: int|
                        0 <= p < i ==> (#[trigger] self@[p]).len() == other@[p].len(),
                    forall|p: int, q: int|
                        0 <= p < i && 0 <= q < self@[p].len() ==> crate::util::rat_near(
                            #[trigger] self@[p][q],
                            other@[p][q],
                        ),
                    forall|q: int|
                        0 <= q < j ==> crate::util::rat_near(
                            #[trigger] self@[i as int][q],
                            other@[i as int][q],
                        ),
                decreases a.len() - j,
            {
                if !crate::util::almost_equal(&a[j], &b[j]) {
                    proof {
                        assert(self@[i as int][j as int] == a@[j as int]@);
                        assert(other@[i as int][j as int] == b@[j as int]@);
                    }
                    return false;
                }
                proof {
                    assert(self@[i as int][j as int] == a@[j as int]@);
                    assert(other@[i as int][j as int] == b@[j as int]@);
                }
                j += 1;
            }
            i += 1;
        }
        true
    }
}

impl vstd::std_specs::cmp::PartialEqSpecImpl for Matrix {
    open spec fn obeys_eq_spec() -> bool {
        true
    }

    open spec fn eq_spec(&self, other: &Matrix) -> bool {
        mat_near(self.view(), other.view())
    }
}

} // verus!
