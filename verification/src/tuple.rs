//! Homogeneous-coordinate tuples.
//!
//! A tuple has four scalar components; `w == 1` marks a point and `w == 0`
//! marks a vector. All arithmetic is componentwise and exact; fallible
//! operations return `None` exactly when some component of the true result
//! is not representable.

use vstd::prelude::*;

verus! {

use crate::rational::{
    Rat, Scalar, rat_wf, rat_eq, rat_int, rat_add, rat_sub, rat_mul, rat_neg, rat_div, checked,
    view_opt, in_range, lemma_rat_mul_comm, lemma_rat_ops_wf, lemma_checked_some,
    lemma_checked_neg,
};

/// Mathematical model of a tuple: four rationals.
pub ghost struct TupleV {
    pub x: Rat,
    pub y: Rat,
    pub z: Rat,
    pub w: Rat,
}

/// All components are well-formed representations.
pub open spec fn tup_wf(t: TupleV) -> bool {
    rat_wf(t.x) && rat_wf(t.y) && rat_wf(t.z) && rat_wf(t.w)
}

/// All components fit the scalar range.
pub open spec fn tup_in_range(t: TupleV) -> bool {
    in_range(t.x) && in_range(t.y) && in_range(t.z) && in_range(t.w)
}

/// Componentwise exact equality of the denoted rationals.
pub open spec fn tup_eq(a: TupleV, b: TupleV) -> bool {
    rat_eq(a.x, b.x) && rat_eq(a.y, b.y) && rat_eq(a.z, b.z) && rat_eq(a.w, b.w)
}

/// Componentwise approximate equality: every component differs by less
/// than the canonical tolerance.
pub open spec fn tup_near(a: TupleV, b: TupleV) -> bool {
    crate::util::rat_near(a.x, b.x) && crate::util::rat_near(a.y, b.y) && crate::util::rat_near(
        a.z,
        b.z,
    ) && crate::util::rat_near(a.w, b.w)
}

/// Exactly equal tuples are in particular approximately equal.
pub proof fn lemma_tup_eq_implies_near(a: TupleV, b: TupleV)
    requires
        tup_wf(a),
        tup_wf(b),
        tup_eq(a, b),
    ensures
        tup_near(a, b),
{
    crate::util::lemma_rat_eq_implies_near(a.x, b.x);
    crate::util::lemma_rat_eq_implies_near(a.y, b.y);
    crate::util::lemma_rat_eq_implies_near(a.z, b.z);
    crate::util::lemma_rat_eq_implies_near(a.w, b.w);
}

/// Componentwise negation.
pub open spec fn tup_neg(t: TupleV) -> TupleV {
    TupleV { x: rat_neg(t.x), y: rat_neg(t.y), z: rat_neg(t.z), w: rat_neg(t.w) }
}

/// Exact componentwise sum.
pub open spec fn tup_add(a: TupleV, b: TupleV) -> Option<TupleV> {
    match (checked(rat_add(a.x, b.x)), checked(rat_add(a.y, b.y)), checked(rat_add(a.z, b.z)),
    checked(rat_add(a.w, b.w))) {
        (Some(x), Some(y), Some(z), Some(w)) => Some(TupleV { x, y, z, w }),
        _ => None,
    }
}

/// Exact componentwise difference.
pub open spec fn tup_sub(a: TupleV, b: TupleV) -> Option<TupleV> {
    match (checked(rat_sub(a.x, b.x)), checked(rat_sub(a.y, b.y)), checked(rat_sub(a.z, b.z)),
    checked(rat_sub(a.w, b.w))) {
        (Some(x), Some(y), Some(z), Some(w)) => Some(TupleV { x, y, z, w }),
        _ => None,
    }
}

/// Exact componentwise scaling.
pub open spec fn tup_scale(t: TupleV, s: Rat) -> Option<TupleV> {
    match (checked(rat_mul(t.x, s)), checked(rat_mul(t.y, s)), checked(rat_mul(t.z, s)), checked(
        rat_mul(t.w, s),
    )) {
        (Some(x), Some(y), Some(z), Some(w)) => Some(TupleV { x, y, z, w }),
        _ => None,
    }
}

/// Exact componentwise division.
pub open spec fn tup_scale_div(t: TupleV, s: Rat) -> Option<TupleV> {
    match (checked(rat_div(t.x, s)), checked(rat_div(t.y, s)), checked(rat_div(t.z, s)), checked(
        rat_div(t.w, s),
    )) {
        (Some(x), Some(y), Some(z), Some(w)) => Some(TupleV { x, y, z, w }),
        _ => None,
    }
}

/// Exact four-term dot product, summed left to right.
pub open spec fn tup_dot(a: TupleV, b: TupleV) -> Option<Rat> {
    match (checked(rat_mul(a.x, b.x)), checked(rat_mul(a.y, b.y)), checked(rat_mul(a.z, b.z)),
    checked(rat_mul(a.w, b.w))) {
        (Some(mx), Some(my), Some(mz), Some(mw)) => match checked(rat_add(mx, my)) {
            Some(s1) => match checked(rat_add(s1, mz)) {
                Some(s2) => checked(rat_add(s2, mw)),
                None => None,
            },
            None => None,
        },
        _ => None,
    }
}

/// One component of the cross product: `p * q - r * s`, exactly.
pub open spec fn cross_term(p: Rat, q: Rat, r: Rat, s: Rat) -> Option<Rat> {
    match (checked(rat_mul(p, q)), checked(rat_mul(r, s))) {
        (Some(u), Some(v)) => checked(rat_sub(u, v)),
        _ => None,
    }
}

/// Exact three-dimensional cross product; the result is a vector.
pub open spec fn tup_cross(a: TupleV, b: TupleV) -> Option<TupleV> {
    match (cross_term(a.y, b.z, a.z, b.y), cross_term(a.z, b.x, a.x, b.z), cross_term(
        a.x,
        b.y,
        a.y,
        b.x,
    )) {
        (Some(x), Some(y), Some(z)) => Some(TupleV { x, y, z, w: rat_int(0) }),
        _ => None,
    }
}

/// A homogeneous-coordinate tuple of exact scalars.
#[derive(Clone, Copy, Debug)]
pub struct Tuple {
    pub x: Scalar,
    pub y: Scalar,
    pub z: Scalar,
    pub w: Scalar,
}

impl View for Tuple {
    type V = TupleV;

    open spec fn view(&self) -> TupleV {
        TupleV { x: self.x@, y: self.y@, z: self.z@, w: self.w@ }
    }
}

impl Tuple {
    /// Every tuple models well-formed, representable components.
    pub fn wf_facts(&self)
        ensures
            tup_wf(self@),
            tup_in_range(self@),
    {
        self.x.wf_facts();
        self.y.wf_facts();
        self.z.wf_facts();
        self.w.wf_facts();
    }

    pub fn new(x: Scalar, y: Scalar, z: Scalar, w: Scalar) -> (r: Tuple)
        ensures
            r@ == (TupleV { x: x@, y: y@, z: z@, w: w@ }),
    {
        Tuple { x, y, z, w }
    }

    /// A point: a tuple whose `w` component is one.
    pub fn point(x: Scalar, y: Scalar, z: Scalar) -> (r: Tuple)
        ensures
            r@ == (TupleV { x: x@, y: y@, z: z@, w: rat_int(1) }),
    {
        Tuple::new(x, y, z, Scalar::from_int(1))
    }

    /// A vector: a tuple whose `w` component is zero.
    pub fn vector(x: Scalar, y: Scalar, z: Scalar) -> (r: Tuple)
        ensures
            r@ == (TupleV { x: x@, y: y@, z: z@, w: rat_int(0) }),
    {
        Tuple::new(x, y, z, Scalar::from_int(0))
    }

    /// Whether the `w` component equals one.
    pub fn is_point(&self) -> (r: bool)
        ensures
            r == rat_eq(self@.w, rat_int(1)),
    {
        self.w.wf_facts();
        self.w.num() == self.w.den()
    }

    /// Whether the `w` component equals zero.
    pub fn is_vector(&self) -> (r: bool)
        ensures
            r == rat_eq(self@.w, rat_int(0)),
    {
        self.w.is_zero()
    }

    /// Exact componentwise sum.
    pub fn add(&self, other: &Tuple) -> (r: Option<Tuple>)
        ensures
            view_opt(r) == tup_add(self@, other@),
    {
        let x = match self.x.add(&other.x) {
            Some(v) => v,
            None => {
                return None;
            },
        };
        let y = match self.y.add(&other.y) {
            Some(v) => v,
            None => {
                return None;
            },
        };
        let z = match self.z.add(&other.z) {
            Some(v) => v,
            None => {
                return None;
            },
        };
        let w = match self.w.add(&other.w) {
            Some(v) => v,
            None => {
                return None;
            },
        };
        Some(Tuple { x, y, z, w })
    }

    /// Exact componentwise difference.
    pub fn sub(&self, other: &Tuple) -> (r: Option<Tuple>)
        ensures
            view_opt(r) == tup_sub(self@, other@),
    {
        let x = match self.x.sub(&other.x) {
            Some(v) => v,
            None => {
                return None;
            },
        };
        let y = match self.y.sub(&other.y) {
            Some(v) => v,
            None => {
                return None;
            },
        };
        let z = match self.z.sub(&other.z) {
            Some(v) => v,
            None => {
                return None;
            },
        };
        let w = match self.w.sub(&other.w) {
            Some(v) => v,
            None => {
                return None;
            },
        };
        Some(Tuple { x, y, z, w })
    }

    /// Exact componentwise negation.
    pub fn neg(&self) -> (r: Tuple)
        ensures
            r@ == tup_neg(self@),
    {
        Tuple { x: self.x.neg(), y: self.y.neg(), z: self.z.neg(), w: self.w.neg() }
    }

    /// Exact multiplication of every component by `scalar`.
    pub fn mul(&self, scalar: &Scalar) -> (r: Option<Tuple>)
        ensures
            view_opt(r) == tup_scale(self@, scalar@),
    {
        let x = match self.x.mul(scalar) {
            Some(v) => v,
            None => {
                return None;
            },
        };
        let y = match self.y.mul(scalar) {
            Some(v) => v,
            None => {
                return None;
            },
        };
        let z = match self.z.mul(scalar) {
            Some(v) => v,
            None => {
                return None;
            },
        };
        let w = match self.w.mul(scalar) {
            Some(v) => v,
            None => {
                return None;
            },
        };
        Some(Tuple { x, y, z, w })
    }

    /// Exact division of every component by `scalar`.
    pub fn div(&self, scalar: &Scalar) -> (r: Option<Tuple>)
        requires
            scalar@.n != 0,
        ensures
            view_opt(r) == tup_scale_div(self@, scalar@),
    {
        let x = match self.x.div(scalar) {
            Some(v) => v,
            None => {
                return None;
            },
        };
        let y = match self.y.div(scalar) {
            Some(v) => v,
            None => {
                return None;
            },
        };
        let z = match self.z.div(scalar) {
            Some(v) => v,
            None => {
                return None;
            },
        };
        let w = match self.w.div(scalar) {
            Some(v) => v,
            None => {
                return None;
            },
        };
        Some(Tuple { x, y, z, w })
    }

    /// Exact dot product over all four components.
    pub fn dot(&self, other: &Tuple) -> (r: Option<Scalar>)
        ensures
            view_opt(r) == tup_dot(self@, other@),
    {
        let mx = match self.x.mul(&other.x) {
            Some(v) => v,
            None => {
                return None;
            },
        };
        let my = match self.y.mul(&other.y) {
            Some(v) => v,
            None => {
                return None;
            },
        };
        let mz = match self.z.mul(&other.z) {
            Some(v) => v,
            None => {
                return None;
            },
        };
        let mw = match self.w.mul(&other.w) {
            Some(v) => v,
            None => {
                return None;
            },
        };
        let s1 = match mx.add(&my) {
            Some(v) => v,
            None => {
                return None;
            },
        };
        let s2 = match s1.add(&mz) {
            Some(v) => v,
            None => {
                return None;
            },
        };
        s2.add(&mw)
    }

    /// The squared Euclidean length: the dot product with itself.
    pub fn magnitude_squared(&self) -> (r: Option<Scalar>)
        ensures
            view_opt(r) == tup_dot(self@, self@),
    {
        self.dot(self)
    }

    /// Exact cross product; the result has `w == 0` whatever the inputs.
    pub fn cross(&self, other: &Tuple) -> (r: Option<Tuple>)
        ensures
            view_opt(r) == tup_cross(self@, other@),
    {
        let x = match cross_component(&self.y, &other.z, &self.z, &other.y) {
            Some(v) => v,
            None => {
                return None;
            },
        };
        let y = match cross_component(&self.z, &other.x, &self.x, &other.z) {
            Some(v) => v,
            None => {
                return None;
            },
        };
        let z = match cross_component(&self.x, &other.y, &self.y, &other.x) {
            Some(v) => v,
            None => {
                return None;
            },
        };
        Some(Tuple { x, y, z, w: Scalar::from_int(0) })
    }

    /// Divides every component by the given magnitude, yielding a tuple of
    /// unit length whenever `magnitude` squares to the squared length.
    pub fn normalize(&self, magnitude: &Scalar) -> (r: Option<Tuple>)
        requires
            magnitude@.n != 0,
        ensures
            view_opt(r) == tup_scale_div(self@, magnitude@),
    {
        self.div(magnitude)
    }
}

/// One cross-product component: `p * q - r * s`.
fn cross_component(p: &Scalar, q: &Scalar, r: &Scalar, s: &Scalar) -> (res: Option<Scalar>)
    ensures
        view_opt(res) == cross_term(p@, q@, r@, s@),
{
    let u = match p.mul(q) {
        Some(v) => v,
        None => {
            return None;
        },
    };
    let v = match r.mul(s) {
        Some(v) => v,
        None => {
            return None;
        },
    };
    u.sub(&v)
}

/// The cross product is antisymmetric: swapping the operands succeeds in
/// exactly the same cases and negates every component.
pub proof fn lemma_cross_antisymmetric(a: TupleV, b: TupleV)
    requires
        tup_wf(a),
        tup_wf(b),
    ensures
        tup_cross(a, b) is Some <==> tup_cross(b, a) is Some,
        tup_cross(a, b) matches Some(c) ==> tup_cross(b, a) == Some(tup_neg(c)),
{
    lemma_cross_term_swap(a.y, b.z, a.z, b.y);
    lemma_cross_term_swap(a.z, b.x, a.x, b.z);
    lemma_cross_term_swap(a.x, b.y, a.y, b.x);
}

/// Swapping the operand roles of one cross-product component negates it.
proof fn lemma_cross_term_swap(p: Rat, q: Rat, r: Rat, s: Rat)
    requires
        rat_wf(p),
        rat_wf(q),
        rat_wf(r),
        rat_wf(s),
    ensures
        cross_term(p, q, r, s) is Some <==> cross_term(s, r, q, p) is Some,
        cross_term(p, q, r, s) matches Some(v) ==> cross_term(s, r, q, p) == Some(rat_neg(v)),
{
    lemma_rat_mul_comm(s, r);
    lemma_rat_mul_comm(q, p);
    lemma_rat_ops_wf(p, q);
    lemma_rat_ops_wf(r, s);
    if checked(rat_mul(p, q)) is Some && checked(rat_mul(r, s)) is Some {
        lemma_checked_some(rat_mul(p, q));
        lemma_checked_some(rat_mul(r, s));
        let u = checked(rat_mul(p, q)).unwrap();
        let v = checked(rat_mul(r, s)).unwrap();
        assert(v.d * u.d == u.d * v.d) by (nonlinear_arith) {}
        assert(rat_sub(v, u) == rat_neg(rat_sub(u, v)));
        lemma_rat_ops_wf(u, v);
        lemma_checked_neg(rat_sub(u, v));
    }
}

/// Squaring a quotient is dividing the squares.
proof fn lemma_div_square(a: Rat, m: Rat)
    requires
        rat_wf(a),
        rat_wf(m),
        m.n != 0,
    ensures
        rat_mul(rat_div(a, m), rat_div(a, m)) == rat_div(rat_mul(a, a), rat_mul(m, m)),
        rat_mul(m, m).n >= 1,
{
    assert(1 <= m.n * m.n) by (nonlinear_arith)
        requires
            m.n != 0,
    {}
    if m.n >= 0 {
        assert((a.n * m.d) * (a.n * m.d) == (a.n * a.n) * (m.d * m.d) && (a.d * m.n) * (a.d * m.n)
            == (a.d * a.d) * (m.n * m.n)) by (nonlinear_arith) {}
    } else {
        assert((a.n * -m.d) * (a.n * -m.d) == (a.n * a.n) * (m.d * m.d) && (a.d * -m.n) * (a.d
            * -m.n) == (a.d * a.d) * (m.n * m.n)) by (nonlinear_arith) {}
    }
}

/// Adding two fractions that are each equal to a numerator over the common
/// divisor yields the summed numerator over that divisor.
pub proof fn lemma_add_over(x: Rat, sa: Rat, y: Rat, sb: Rat, dd: Rat)
    requires
        rat_wf(x),
        rat_wf(y),
        rat_wf(sa),
        rat_wf(sb),
        rat_wf(dd),
        dd.n != 0,
        rat_eq(x, rat_div(sa, dd)),
        rat_eq(y, rat_div(sb, dd)),
    ensures
        rat_eq(rat_add(x, y), rat_div(rat_add(sa, sb), dd)),
        rat_wf(rat_add(x, y)),
        rat_wf(rat_add(sa, sb)),
        rat_wf(rat_div(rat_add(sa, sb), dd)),
{
    lemma_rat_ops_wf(x, y);
    lemma_rat_ops_wf(sa, sb);
    lemma_rat_ops_wf(sa, dd);
    lemma_rat_ops_wf(sb, dd);
    lemma_rat_ops_wf(rat_add(sa, sb), dd);
    lemma_rat_ops_wf(rat_div(sa, dd), rat_div(sb, dd));
    crate::rational::lemma_rat_add_cong(x, rat_div(sa, dd), y, rat_div(sb, dd));
    crate::rational::lemma_div_add(sa, sb, dd);
    crate::rational::lemma_rat_eq_trans(
        rat_add(x, y),
        rat_add(rat_div(sa, dd), rat_div(sb, dd)),
        rat_div(rat_add(sa, sb), dd),
    );
}

/// Normalizing by a scalar whose square is the squared magnitude yields a
/// tuple of squared magnitude one.
pub proof fn lemma_normalize_unit_magnitude(v: TupleV, m: Rat)
    requires
        tup_wf(v),
        rat_wf(m),
        m.n != 0,
        tup_dot(v, v) is Some,
        rat_eq(rat_mul(m, m), tup_dot(v, v).unwrap()),
        tup_scale_div(v, m) is Some,
        tup_dot(tup_scale_div(v, m).unwrap(), tup_scale_div(v, m).unwrap()) is Some,
    ensures
        rat_eq(
            tup_dot(tup_scale_div(v, m).unwrap(), tup_scale_div(v, m).unwrap()).unwrap(),
            rat_int(1),
        ),
{
    let sx = rat_mul(v.x, v.x);
    let sy = rat_mul(v.y, v.y);
    let sz = rat_mul(v.z, v.z);
    let sw = rat_mul(v.w, v.w);
    lemma_rat_ops_wf(v.x, v.x);
    lemma_rat_ops_wf(v.y, v.y);
    lemma_rat_ops_wf(v.z, v.z);
    lemma_rat_ops_wf(v.w, v.w);
    lemma_rat_ops_wf(sx, sy);
    lemma_rat_ops_wf(rat_add(sx, sy), sz);
    lemma_rat_ops_wf(rat_add(rat_add(sx, sy), sz), sw);
    let cap_s = rat_add(rat_add(rat_add(sx, sy), sz), sw);
    // The squared magnitude of `v` equals the raw sum of squares.
    let s = tup_dot(v, v).unwrap();
    lemma_checked_some(sx);
    lemma_checked_some(sy);
    lemma_checked_some(sz);
    lemma_checked_some(sw);
    let mx = checked(sx).unwrap();
    let my = checked(sy).unwrap();
    let mz = checked(sz).unwrap();
    let mw = checked(sw).unwrap();
    lemma_rat_ops_wf(mx, my);
    lemma_checked_some(rat_add(mx, my));
    let s1 = checked(rat_add(mx, my)).unwrap();
    lemma_rat_ops_wf(s1, mz);
    lemma_checked_some(rat_add(s1, mz));
    let s2 = checked(rat_add(s1, mz)).unwrap();
    lemma_rat_ops_wf(s2, mw);
    lemma_checked_some(rat_add(s2, mw));
    crate::rational::lemma_rat_add_cong(mx, sx, my, sy);
    crate::rational::lemma_rat_eq_trans(s1, rat_add(mx, my), rat_add(sx, sy));
    crate::rational::lemma_rat_add_cong(s1, rat_add(sx, sy), mz, sz);
    crate::rational::lemma_rat_eq_trans(s2, rat_add(s1, mz), rat_add(rat_add(sx, sy), sz));
    crate::rational::lemma_rat_add_cong(s2, rat_add(rat_add(sx, sy), sz), mw, sw);
    crate::rational::lemma_rat_eq_trans(s, rat_add(s2, mw), cap_s);
    // So the divisor `m * m` equals that sum too.
    let dd = rat_mul(m, m);
    lemma_rat_ops_wf(m, m);
    assert(dd.n >= 1) by (nonlinear_arith)
        requires
            m.n != 0,
            dd.n == m.n * m.n,
    {}
    crate::rational::lemma_rat_eq_trans(dd, s, cap_s);
    // Each normalized component squares to its square over `m * m`.
    let u = tup_scale_div(v, m).unwrap();
    lemma_rat_ops_wf(v.x, m);
    lemma_rat_ops_wf(v.y, m);
    lemma_rat_ops_wf(v.z, m);
    lemma_rat_ops_wf(v.w, m);
    lemma_checked_some(rat_div(v.x, m));
    lemma_checked_some(rat_div(v.y, m));
    lemma_checked_some(rat_div(v.z, m));
    lemma_checked_some(rat_div(v.w, m));
    lemma_div_square(v.x, m);
    lemma_div_square(v.y, m);
    lemma_div_square(v.z, m);
    lemma_div_square(v.w, m);
    lemma_rat_ops_wf(u.x, u.x);
    lemma_rat_ops_wf(u.y, u.y);
    lemma_rat_ops_wf(u.z, u.z);
    lemma_rat_ops_wf(u.w, u.w);
    lemma_rat_ops_wf(sx, dd);
    lemma_rat_ops_wf(sy, dd);
    lemma_rat_ops_wf(sz, dd);
    lemma_rat_ops_wf(sw, dd);
    crate::rational::lemma_rat_mul_cong(u.x, rat_div(v.x, m), u.x, rat_div(v.x, m));
    crate::rational::lemma_rat_eq_trans(
        rat_mul(u.x, u.x),
        rat_mul(rat_div(v.x, m), rat_div(v.x, m)),
        rat_div(sx, dd),
    );
    crate::rational::lemma_rat_mul_cong(u.y, rat_div(v.y, m), u.y, rat_div(v.y, m));
    crate::rational::lemma_rat_eq_trans(
        rat_mul(u.y, u.y),
        rat_mul(rat_div(v.y, m), rat_div(v.y, m)),
        rat_div(sy, dd),
    );
    crate::rational::lemma_rat_mul_cong(u.z, rat_div(v.z, m), u.z, rat_div(v.z, m));
    crate::rational::lemma_rat_eq_trans(
        rat_mul(u.z, u.z),
        rat_mul(rat_div(v.z, m), rat_div(v.z, m)),
        rat_div(sz, dd),
    );
    crate::rational::lemma_rat_mul_cong(u.w, rat_div(v.w, m), u.w, rat_div(v.w, m));
    crate::rational::lemma_rat_eq_trans(
        rat_mul(u.w, u.w),
        rat_mul(rat_div(v.w, m), rat_div(v.w, m)),
        rat_div(sw, dd),
    );
    // The squared magnitude of the normalized tuple is the full sum over
    // `m * m`, which is one.
    let t = tup_dot(u, u).unwrap();
    lemma_rat_ops_wf(u.x, u.x);
    lemma_checked_some(rat_mul(u.x, u.x));
    lemma_checked_some(rat_mul(u.y, u.y));
    lemma_checked_some(rat_mul(u.z, u.z));
    lemma_checked_some(rat_mul(u.w, u.w));
    let nx = checked(rat_mul(u.x, u.x)).unwrap();
    let ny = checked(rat_mul(u.y, u.y)).unwrap();
    let nz = checked(rat_mul(u.z, u.z)).unwrap();
    let nw = checked(rat_mul(u.w, u.w)).unwrap();
    crate::rational::lemma_rat_eq_trans(nx, rat_mul(u.x, u.x), rat_div(sx, dd));
    crate::rational::lemma_rat_eq_trans(ny, rat_mul(u.y, u.y), rat_div(sy, dd));
    crate::rational::lemma_rat_eq_trans(nz, rat_mul(u.z, u.z), rat_div(sz, dd));
    crate::rational::lemma_rat_eq_trans(nw, rat_mul(u.w, u.w), rat_div(sw, dd));
    lemma_rat_ops_wf(nx, ny);
    lemma_checked_some(rat_add(nx, ny));
    let t1 = checked(rat_add(nx, ny)).unwrap();
    lemma_add_over(nx, sx, ny, sy, dd);
    crate::rational::lemma_rat_eq_trans(t1, rat_add(nx, ny), rat_div(rat_add(sx, sy), dd));
    lemma_rat_ops_wf(t1, nz);
    lemma_checked_some(rat_add(t1, nz));
    let t2 = checked(rat_add(t1, nz)).unwrap();
    lemma_add_over(t1, rat_add(sx, sy), nz, sz, dd);
    crate::rational::lemma_rat_eq_trans(
        t2,
        rat_add(t1, nz),
        rat_div(rat_add(rat_add(sx, sy), sz), dd),
    );
    lemma_rat_ops_wf(t2, nw);
    lemma_checked_some(rat_add(t2, nw));
    lemma_add_over(t2, rat_add(rat_add(sx, sy), sz), nw, sw, dd);
    crate::rational::lemma_rat_eq_trans(t, rat_add(t2, nw), rat_div(cap_s, dd));
    lemma_rat_ops_wf(cap_s, dd);
    crate::rational::lemma_rat_div_cong(cap_s, dd, dd);
    lemma_rat_ops_wf(dd, dd);
    crate::rational::lemma_rat_eq_trans(t, rat_div(cap_s, dd), rat_div(dd, dd));
    crate::rational::lemma_div_self(dd);
    crate::rational::lemma_rat_eq_trans(t, rat_div(dd, dd), rat_int(1));
}

impl PartialEq for Tuple {
    /// Componentwise approximate equality under the canonical tolerance.
    /// Like any tolerance-based comparison, this relation is reflexive and
    /// symmetric but not transitive.
    fn eq(&self, other: &Tuple) -> (r: bool) {
        crate::util::almost_equal(&self.x, &other.x) && crate::util::almost_equal(
            &self.y,
            &other.y,
        ) && crate::util::almost_equal(&self.z, &other.z) && crate::util::almost_equal(
            &self.w,
            &other.w,
        )
    }
}

impl vstd::std_specs::cmp::PartialEqSpecImpl for Tuple {
    open spec fn obeys_eq_spec() -> bool {
        true
    }

    open spec fn eq_spec(&self, other: &Tuple) -> bool {
        tup_near(self.view(), other.view())
    }
}

} // verus!
