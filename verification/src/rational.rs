//! Exact rational scalars.
//!
//! `Scalar` is a fraction of two `i64` values with a positive denominator,
//! always stored in reduced form. Arithmetic is exact: each operation
//! computes the true rational result in wide intermediates, reduces it by
//! the greatest common divisor, and returns `None` exactly when the reduced
//! result does not fit the `i64` range.

use vstd::prelude::*;

verus! {

use vstd::arithmetic::div_mod::{lemma_fundamental_div_mod, lemma_div_is_ordered,
    lemma_div_multiples_vanish};
use vstd::math::abs;

/// Mathematical model of a scalar: the rational number `n / d`.
pub ghost struct Rat {
    pub n: int,
    pub d: int,
}

/// A well-formed rational representation has a positive denominator.
pub open spec fn rat_wf(q: Rat) -> bool {
    1 <= q.d
}

/// Two representations denote the same rational number.
pub open spec fn rat_eq(a: Rat, b: Rat) -> bool {
    a.n * b.d == b.n * a.d
}

/// `a < b` as rational numbers (for well-formed representations).
pub open spec fn rat_lt(a: Rat, b: Rat) -> bool {
    a.n * b.d < b.n * a.d
}

/// The rational denoted by the integer `k`.
pub open spec fn rat_int(k: int) -> Rat {
    Rat { n: k, d: 1 }
}

pub open spec fn rat_add(a: Rat, b: Rat) -> Rat {
    Rat { n: a.n * b.d + b.n * a.d, d: a.d * b.d }
}

pub open spec fn rat_sub(a: Rat, b: Rat) -> Rat {
    Rat { n: a.n * b.d - b.n * a.d, d: a.d * b.d }
}

pub open spec fn rat_mul(a: Rat, b: Rat) -> Rat {
    Rat { n: a.n * b.n, d: a.d * b.d }
}

pub open spec fn rat_neg(a: Rat) -> Rat {
    Rat { n: -a.n, d: a.d }
}

/// The reciprocal, with the sign moved into the numerator.
pub open spec fn rat_recip(b: Rat) -> Rat {
    if b.n >= 0 {
        Rat { n: b.d, d: b.n }
    } else {
        Rat { n: -b.d, d: -b.n }
    }
}

pub open spec fn rat_div(a: Rat, b: Rat) -> Rat {
    rat_mul(a, rat_recip(b))
}

pub open spec fn rat_abs(q: Rat) -> Rat {
    if q.n >= 0 {
        q
    } else {
        rat_neg(q)
    }
}

/// Euclid's greatest common divisor.
pub open spec fn gcd(a: nat, b: nat) -> nat
    decreases b,
{
    if b == 0 {
        a
    } else {
        gcd(b, a % b)
    }
}

/// `g` divides `a` over the integers.
pub open spec fn divides(g: int, a: int) -> bool {
    exists|k: int| a == #[trigger] (k * g)
}

/// A representation whose parts fit the `i64` range of `Scalar`.
pub open spec fn in_range(q: Rat) -> bool {
    &&& -(i64::MAX as int) <= q.n <= i64::MAX as int
    &&& 1 <= q.d <= i64::MAX as int
}

/// The reduced (lowest-terms) form of a representation.
pub open spec fn reduce(q: Rat) -> Rat
    recommends
        rat_wf(q),
{
    let g = gcd(abs(q.n), q.d as nat) as int;
    if 1 <= g {
        Rat { n: q.n / g, d: q.d / g }
    } else {
        q
    }
}

/// The result of an exact operation: the reduced value when it is
/// representable, `None` when it is not.
pub open spec fn checked(q: Rat) -> Option<Rat>
    recommends
        rat_wf(q),
{
    let r = reduce(q);
    if in_range(r) {
        Some(r)
    } else {
        None
    }
}

/// The models of an optional result, for stating contracts of fallible
/// operations in one equation.
pub open spec fn view_opt<T: View>(o: Option<T>) -> Option<T::V> {
    match o {
        Some(t) => Some(t.view()),
        None => None,
    }
}

/// Pushing onto a vector pushes the element's model onto the deep view.
pub proof fn lemma_push_deep<T: DeepView>(pre: Vec<T>, post: Vec<T>, x: T)
    requires
        post@ == pre@.push(x),
    ensures
        post.deep_view() == pre.deep_view().push(x.deep_view()),
{
    assert(post.deep_view() =~= pre.deep_view().push(x.deep_view()));
}

/// The greatest common divisor divides both arguments and is positive
/// whenever either argument is.
pub proof fn lemma_gcd_divides(a: nat, b: nat)
    ensures
        divides(gcd(a, b) as int, a as int),
        divides(gcd(a, b) as int, b as int),
        a > 0 || b > 0 ==> gcd(a, b) >= 1,
    decreases b,
{
    if b == 0 {
        assert(a as int == 1 * (a as int));
        assert(0 == 0 * (a as int));
    } else {
        lemma_gcd_divides(b, a % b);
        let g = gcd(b, a % b) as int;
        let k1 = choose|k: int| b as int == #[trigger] (k * g);
        let k2 = choose|k: int| (a % b) as int == #[trigger] (k * g);
        lemma_fundamental_div_mod(a as int, b as int);
        let q = a as int / b as int;
        assert(a as int == (q * k1 + k2) * g) by (nonlinear_arith)
            requires
                a as int == b as int * q + (a % b) as int,
                b as int == k1 * g,
                (a % b) as int == k2 * g,
        {}
    }
}

/// Dividing an exact multiple recovers the cofactor.
proof fn lemma_exact_div(x: int, g: int)
    requires
        1 <= g,
        divides(g, x),
    ensures
        x == (x / g) * g,
        x >= 0 ==> 0 <= x / g <= x,
        x < 0 ==> x <= x / g < 0,
{
    let k = choose|kk: int| x == #[trigger] (kk * g);
    lemma_div_multiples_vanish(k, g);
    assert(g * k == k * g) by (nonlinear_arith) {}
    assert(x / g == k);
    if x >= 0 {
        assert(0 <= k && k <= k * g) by (nonlinear_arith)
            requires
                1 <= g,
                k * g >= 0,
        {}
    } else {
        assert(k < 0 && k * g <= k) by (nonlinear_arith)
            requires
                1 <= g,
                k * g < 0,
        {}
    }
}

/// A divisor of the absolute value divides the signed value.
proof fn lemma_divides_signed(x: int, g: int)
    requires
        divides(g, abs(x) as int),
    ensures
        divides(g, x),
{
    if x < 0 {
        let k = choose|kk: int| abs(x) as int == #[trigger] (kk * g);
        assert(x == (-k) * g) by (nonlinear_arith)
            requires
                abs(x) as int == k * g,
                x < 0,
                abs(x) == -x,
        {}
    }
}

/// Reduction preserves the denoted rational, keeps the denominator
/// positive, and never grows either part.
pub proof fn lemma_reduce(q: Rat)
    requires
        rat_wf(q),
    ensures
        rat_wf(reduce(q)),
        rat_eq(reduce(q), q),
        abs(reduce(q).n) <= abs(q.n),
        reduce(q).d <= q.d,
        in_range(q) ==> checked(q) == Some(reduce(q)),
        q.d == 1 ==> reduce(q) == q,
{
    let g = gcd(abs(q.n), q.d as nat) as int;
    lemma_gcd_divides(abs(q.n), q.d as nat);
    lemma_divides_signed(q.n, g);
    assert(1 <= g);
    if q.d == 1 {
        assert(abs(q.n) % 1nat == 0nat);
        assert(gcd(abs(q.n), 1nat) == gcd(1nat, 0nat));
        assert(gcd(1nat, 0nat) == 1nat);
        assert(q.n / 1 == q.n && 1int / 1 == 1);
    }
    lemma_exact_div(q.n, g);
    lemma_exact_div(q.d, g);
    let rn = q.n / g;
    let rd = q.d / g;
    assert(1 <= rd) by (nonlinear_arith)
        requires
            q.d == rd * g,
            1 <= g,
            1 <= q.d,
    {}
    assert(rn * q.d == q.n * rd) by (nonlinear_arith)
        requires
            q.n == rn * g,
            q.d == rd * g,
    {}
}

/// Equality of denoted rationals is transitive.
pub proof fn lemma_rat_eq_trans(a: Rat, b: Rat, c: Rat)
    requires
        rat_wf(a),
        rat_wf(b),
        rat_wf(c),
        rat_eq(a, b),
        rat_eq(b, c),
    ensures
        rat_eq(a, c),
{
    assert(rat_eq(a, c)) by (nonlinear_arith)
        requires
            a.n * b.d == b.n * a.d,
            b.n * c.d == c.n * b.d,
            1 <= b.d,
    {}
}

/// A product of two products may pair its factors either way.
proof fn lemma_mul_shuffle(x: int, y: int, z: int, w: int)
    ensures
        (x * y) * (z * w) == (x * z) * (y * w),
        (x * y) * (z * w) == (x * w) * (y * z),
{
    assert((x * y) * (z * w) == (x * z) * (y * w) && (x * y) * (z * w) == (x * w) * (y * z))
        by (nonlinear_arith)
    {}
}

/// Multiplication distributes over sum and difference.
proof fn lemma_mul_distrib(x: int, y: int, z: int)
    ensures
        (x + y) * z == x * z + y * z,
        (x - y) * z == x * z - y * z,
{
    assert((x + y) * z == x * z + y * z && (x - y) * z == x * z - y * z) by (nonlinear_arith) {}
}

/// Sums of equal rationals are equal.
pub proof fn lemma_rat_add_cong(a: Rat, a2: Rat, b: Rat, b2: Rat)
    requires
        rat_wf(a),
        rat_wf(a2),
        rat_wf(b),
        rat_wf(b2),
        rat_eq(a, a2),
        rat_eq(b, b2),
    ensures
        rat_eq(rat_add(a, b), rat_add(a2, b2)),
        rat_eq(rat_sub(a, b), rat_sub(a2, b2)),
{
    // Expand both cross products into elementary cross products, then
    // substitute the hypotheses.
    lemma_mul_distrib(a.n * b.d, b.n * a.d, a2.d * b2.d);
    lemma_mul_shuffle(a.n, b.d, a2.d, b2.d);
    lemma_mul_shuffle(b.n, a.d, a2.d, b2.d);
    lemma_mul_distrib(a2.n * b2.d, b2.n * a2.d, a.d * b.d);
    lemma_mul_shuffle(a2.n, b2.d, a.d, b.d);
    lemma_mul_shuffle(b2.n, a2.d, a.d, b.d);
    assert((a.n * a2.d) * (b.d * b2.d) == (a2.n * a.d) * (b.d * b2.d));
    assert((b.n * b2.d) * (a.d * a2.d) == (b2.n * b.d) * (a.d * a2.d));
    assert((a2.n * a.d) * (b2.d * b.d) == (a2.n * a.d) * (b.d * b2.d)) by (nonlinear_arith) {}
    assert((b2.n * b.d) * (a2.d * a.d) == (b2.n * b.d) * (a.d * a2.d)) by (nonlinear_arith) {}
}

/// Products of equal rationals are equal.
pub proof fn lemma_rat_mul_cong(a: Rat, a2: Rat, b: Rat, b2: Rat)
    requires
        rat_wf(a),
        rat_wf(a2),
        rat_wf(b),
        rat_wf(b2),
        rat_eq(a, a2),
        rat_eq(b, b2),
    ensures
        rat_eq(rat_mul(a, b), rat_mul(a2, b2)),
{
    lemma_mul_shuffle(a.n, b.n, a2.d, b2.d);
    assert((a.n * a2.d) * (b.n * b2.d) == (a2.n * a.d) * (b2.n * b.d));
    lemma_mul_shuffle(a2.n, a.d, b2.n, b.d);
    assert((a2.n * b2.n) * (a.d * b.d) == (a2.n * a.d) * (b2.n * b.d)) by (nonlinear_arith) {}
}

/// Multiplying by zero yields exactly zero; multiplying by one or adding
/// zero reduces the other operand.
pub proof fn lemma_checked_units(a: Rat)
    requires
        rat_wf(a),
        in_range(a),
    ensures
        checked(rat_mul(a, rat_int(0))) == Some(rat_int(0)),
        checked(rat_mul(rat_int(0), a)) == Some(rat_int(0)),
        checked(rat_mul(a, rat_int(1))) == Some(reduce(a)),
        checked(rat_mul(rat_int(1), a)) == Some(reduce(a)),
        checked(rat_add(a, rat_int(0))) == Some(reduce(a)),
        checked(rat_add(rat_int(0), a)) == Some(reduce(a)),
        rat_eq(reduce(a), a),
        rat_wf(reduce(a)),
        in_range(reduce(a)),
{
    lemma_reduce(a);
    let z = Rat { n: 0, d: a.d };
    assert(rat_mul(a, rat_int(0)) == z);
    assert(rat_mul(rat_int(0), a) == z);
    // The reduced form of `0 / d` is `0 / 1`.
    assert(abs(0) == 0nat);
    assert(gcd(0nat, a.d as nat) == gcd(a.d as nat, 0nat));
    assert(gcd(a.d as nat, 0nat) == a.d as nat);
    lemma_gcd_divides(0nat, a.d as nat);
    lemma_exact_div(0, a.d);
    lemma_exact_div(a.d, a.d);
    assert(a.d / a.d == 1) by (nonlinear_arith)
        requires
            1 <= a.d,
            a.d == (a.d / a.d) * a.d,
            0 <= a.d / a.d <= a.d,
    {}
    assert(0int / a.d == 0);
    assert(reduce(z) == rat_int(0));
    assert(rat_mul(a, rat_int(1)) == a);
    assert(rat_mul(rat_int(1), a) == Rat { n: a.n, d: a.d });
    assert(rat_add(a, rat_int(0)) == a);
    assert(rat_add(rat_int(0), a) == Rat { n: a.n, d: a.d });
}

/// Multiplication of rationals is commutative on representations.
pub proof fn lemma_rat_mul_comm(x: Rat, y: Rat)
    ensures
        rat_mul(x, y) == rat_mul(y, x),
{
    assert(x.n * y.n == y.n * x.n && x.d * y.d == y.d * x.d) by (nonlinear_arith) {}
}

/// A successful checked operation yields a well-formed, representable
/// value equal to the exact result.
pub proof fn lemma_checked_some(q: Rat)
    requires
        rat_wf(q),
        checked(q) is Some,
    ensures
        checked(q) matches Some(r) && rat_eq(r, q) && rat_wf(r) && in_range(r),
{
    lemma_reduce(q);
}

/// Raw sums, differences and products of well-formed representations are
/// well-formed.
pub proof fn lemma_rat_ops_wf(a: Rat, b: Rat)
    requires
        rat_wf(a),
        rat_wf(b),
    ensures
        rat_wf(rat_add(a, b)),
        rat_wf(rat_sub(a, b)),
        rat_wf(rat_mul(a, b)),
        rat_wf(rat_neg(a)),
        b.n != 0 ==> rat_wf(rat_div(a, b)),
{
    assert(1 <= a.d * b.d) by (nonlinear_arith)
        requires
            1 <= a.d,
            1 <= b.d,
    {}
    if b.n != 0 {
        if b.n >= 0 {
            assert(1 <= a.d * b.n) by (nonlinear_arith)
                requires
                    1 <= a.d,
                    1 <= b.n,
            {}
        } else {
            assert(1 <= a.d * (-b.n)) by (nonlinear_arith)
                requires
                    1 <= a.d,
                    1 <= -b.n,
            {}
        }
    }
}

/// Any representation of zero reduces to the canonical zero.
pub proof fn lemma_checked_zero_num(dd: int)
    requires
        1 <= dd,
    ensures
        checked(Rat { n: 0, d: dd }) == Some(rat_int(0)),
{
    let q = Rat { n: 0, d: dd };
    assert(abs(0) == 0nat);
    assert(gcd(0nat, dd as nat) == gcd(dd as nat, 0nat));
    assert(gcd(dd as nat, 0nat) == dd as nat);
    lemma_gcd_divides(0nat, dd as nat);
    lemma_exact_div(0, dd);
    lemma_exact_div(dd, dd);
    assert(dd / dd == 1) by (nonlinear_arith)
        requires
            1 <= dd,
            dd == (dd / dd) * dd,
            0 <= dd / dd <= dd,
    {}
    assert(0int / dd == 0);
    assert(reduce(q) == rat_int(0));
}

/// Negation commutes with the checked reduction.
pub proof fn lemma_checked_neg(q: Rat)
    requires
        rat_wf(q),
    ensures
        checked(rat_neg(q)) is Some <==> checked(q) is Some,
        checked(q) matches Some(r) ==> checked(rat_neg(q)) == Some(rat_neg(r)),
{
    let g = gcd(abs(q.n), q.d as nat) as int;
    lemma_gcd_divides(abs(q.n), q.d as nat);
    lemma_divides_signed(q.n, g);
    lemma_exact_div(q.n, g);
    lemma_exact_div(q.d, g);
    assert(abs(-q.n) == abs(q.n));
    let nq = rat_neg(q);
    assert(gcd(abs(nq.n), nq.d as nat) as int == g);
    lemma_divides_signed(nq.n, g);
    lemma_exact_div(nq.n, g);
    assert((-q.n) / g == -(q.n / g)) by (nonlinear_arith)
        requires
            1 <= g,
            q.n == (q.n / g) * g,
            -q.n == ((-q.n) / g) * g,
    {}
    assert(reduce(nq) == rat_neg(reduce(q)));
}

/// Equal numerators over a common divisor: congruence of division.
pub proof fn lemma_rat_div_cong(a: Rat, a2: Rat, dd: Rat)
    requires
        rat_wf(a),
        rat_wf(a2),
        rat_wf(dd),
        dd.n != 0,
        rat_eq(a, a2),
    ensures
        rat_eq(rat_div(a, dd), rat_div(a2, dd)),
{
    if dd.n >= 0 {
        assert(rat_eq(rat_div(a, dd), rat_div(a2, dd))) by (nonlinear_arith)
            requires
                a.n * a2.d == a2.n * a.d,
                dd.n >= 0,
                rat_div(a, dd) == (Rat { n: a.n * dd.d, d: a.d * dd.n }),
                rat_div(a2, dd) == (Rat { n: a2.n * dd.d, d: a2.d * dd.n }),
        {}
    } else {
        assert(rat_eq(rat_div(a, dd), rat_div(a2, dd))) by (nonlinear_arith)
            requires
                a.n * a2.d == a2.n * a.d,
                dd.n < 0,
                rat_div(a, dd) == (Rat { n: a.n * -dd.d, d: a.d * -dd.n }),
                rat_div(a2, dd) == (Rat { n: a2.n * -dd.d, d: a2.d * -dd.n }),
        {}
    }
}

/// The integer identity behind adding fractions over a common divisor.
#[verifier::rlimit(50)]
proof fn lemma_div_add_core(p: int, q: int, r: int, s: int, big_d: int, big_n: int)
    ensures
        ((p * big_d) * (s * big_n) + (r * big_d) * (q * big_n)) * ((q * s) * big_n) == ((p * s + r
            * q) * big_d) * ((q * big_n) * (s * big_n)),
{
    let a = (p * big_d) * (s * big_n);
    let b = (r * big_d) * (q * big_n);
    let c = (q * s) * big_n;
    lemma_mul_distrib(a, b, c);
    lemma_mul_shuffle(p, big_d, s, big_n);
    lemma_mul_shuffle(r, big_d, q, big_n);
    lemma_mul_shuffle(q, big_n, s, big_n);
    assert(((p * s) * (big_d * big_n)) * ((q * s) * big_n) == ((p * s) * big_d) * ((q * s) * (big_n
        * big_n))) by (nonlinear_arith) {}
    assert(((r * q) * (big_d * big_n)) * ((q * s) * big_n) == ((r * q) * big_d) * ((q * s) * (big_n
        * big_n))) by (nonlinear_arith) {}
    lemma_mul_distrib(p * s, r * q, big_d);
    lemma_mul_distrib((p * s) * big_d, (r * q) * big_d, (q * big_n) * (s * big_n));
}

/// Fractions over a common divisor add on their numerators.
pub proof fn lemma_div_add(sa: Rat, sb: Rat, dd: Rat)
    requires
        rat_wf(sa),
        rat_wf(sb),
        rat_wf(dd),
        dd.n != 0,
    ensures
        rat_eq(rat_add(rat_div(sa, dd), rat_div(sb, dd)), rat_div(rat_add(sa, sb), dd)),
{
    if dd.n >= 0 {
        lemma_div_add_core(sa.n, sa.d, sb.n, sb.d, dd.d, dd.n);
        assert(rat_div(sa, dd) == (Rat { n: sa.n * dd.d, d: sa.d * dd.n }));
        assert(rat_div(sb, dd) == (Rat { n: sb.n * dd.d, d: sb.d * dd.n }));
        assert(rat_div(rat_add(sa, sb), dd) == (Rat {
            n: (sa.n * sb.d + sb.n * sa.d) * dd.d,
            d: (sa.d * sb.d) * dd.n,
        }));
    } else {
        lemma_div_add_core(sa.n, sa.d, sb.n, sb.d, -dd.d, -dd.n);
        assert(rat_div(sa, dd) == (Rat { n: sa.n * -dd.d, d: sa.d * -dd.n }));
        assert(rat_div(sb, dd) == (Rat { n: sb.n * -dd.d, d: sb.d * -dd.n }));
        assert(rat_div(rat_add(sa, sb), dd) == (Rat {
            n: (sa.n * sb.d + sb.n * sa.d) * -dd.d,
            d: (sa.d * sb.d) * -dd.n,
        }));
    }
}

/// Multiplying by a fraction is dividing the product: `a * (x / d) ==
/// (a * x) / d`.
pub proof fn lemma_mul_div(a: Rat, x: Rat, dd: Rat)
    requires
        rat_wf(a),
        rat_wf(x),
        rat_wf(dd),
        dd.n != 0,
    ensures
        rat_eq(rat_mul(a, rat_div(x, dd)), rat_div(rat_mul(a, x), dd)),
{
    if dd.n >= 0 {
        assert(rat_eq(rat_mul(a, rat_div(x, dd)), rat_div(rat_mul(a, x), dd)))
            by (nonlinear_arith)
            requires
                rat_div(x, dd) == (Rat { n: x.n * dd.d, d: x.d * dd.n }),
                rat_div(rat_mul(a, x), dd) == (Rat { n: (a.n * x.n) * dd.d, d: (a.d * x.d) * dd.n }),
        {}
    } else {
        assert(rat_eq(rat_mul(a, rat_div(x, dd)), rat_div(rat_mul(a, x), dd)))
            by (nonlinear_arith)
            requires
                rat_div(x, dd) == (Rat { n: x.n * -dd.d, d: x.d * -dd.n }),
                rat_div(rat_mul(a, x), dd) == (Rat {
                    n: (a.n * x.n) * -dd.d,
                    d: (a.d * x.d) * -dd.n,
                }),
        {}
    }
}

/// Adding any representation of zero does not change the value.
pub proof fn lemma_rat_add_zero_num(a: Rat, b: Rat)
    requires
        rat_wf(a),
        rat_wf(b),
        b.n == 0,
    ensures
        rat_eq(rat_add(a, b), a),
{
    assert(rat_eq(rat_add(a, b), a)) by (nonlinear_arith)
        requires
            b.n == 0,
            rat_add(a, b) == (Rat { n: a.n * b.d + b.n * a.d, d: a.d * b.d }),
    {}
}

/// A nonzero rational divided by itself is one.
pub proof fn lemma_div_self(dd: Rat)
    requires
        rat_wf(dd),
        dd.n != 0,
    ensures
        rat_eq(rat_div(dd, dd), rat_int(1)),
{
    if dd.n >= 0 {
        assert((dd.n * dd.d) * 1 == 1 * (dd.d * dd.n)) by (nonlinear_arith) {}
    } else {
        assert((dd.n * -dd.d) * 1 == 1 * (dd.d * -dd.n)) by (nonlinear_arith) {}
    }
}

/// An exact rational scalar: numerator over positive denominator, reduced.
#[derive(Clone, Copy, Debug)]
pub struct Scalar {
    n: i64,
    d: i64,
}

impl View for Scalar {
    type V = Rat;

    closed spec fn view(&self) -> Rat {
        Rat { n: self.n as int, d: self.d as int }
    }
}

impl DeepView for Scalar {
    type V = Rat;

    open spec fn deep_view(&self) -> Rat {
        self.view()
    }
}

impl Scalar {
    #[verifier::type_invariant]
    spec fn type_inv(self) -> bool {
        1 <= self.d && self.n > i64::MIN
    }

    /// Every scalar models a well-formed, representable rational.
    pub fn wf_facts(&self)
        ensures
            rat_wf(self@),
            in_range(self@),
    {
        proof {
            use_type_invariant(self);
        }
    }

    /// The scalar `n / d`, stored in lowest terms.
    pub fn new(n: i64, d: i64) -> (r: Scalar)
        requires
            1 <= d,
            i64::MIN < n,
        ensures
            r@ == reduce(Rat { n: n as int, d: d as int }),
    {
        proof {
            lemma_reduce(Rat { n: n as int, d: d as int });
        }
        scalar_from_raw(n as i128, d as i128).unwrap()
    }

    /// The scalar denoted by the integer `n`.
    pub fn from_int(n: i64) -> (r: Scalar)
        requires
            i64::MIN < n,
        ensures
            r@ == rat_int(n as int),
    {
        proof {
            lemma_reduce(Rat { n: n as int, d: 1 });
        }
        Scalar::new(n, 1)
    }

    /// The numerator of the reduced representation.
    pub fn num(&self) -> (r: i64)
        ensures
            r as int == self@.n,
    {
        self.n
    }

    /// The denominator of the reduced representation.
    pub fn den(&self) -> (r: i64)
        ensures
            r as int == self@.d,
    {
        self.d
    }

    /// Exact sum; `None` exactly when the reduced sum leaves the range.
    pub fn add(&self, other: &Scalar) -> (r: Option<Scalar>)
        ensures
            view_opt(r) == checked(rat_add(self@, other@)),
    {
        proof {
            use_type_invariant(self);
            use_type_invariant(other);
            lemma_wide_products(self@, other@);
        }
        let n = self.n as i128 * other.d as i128 + other.n as i128 * self.d as i128;
        let d = self.d as i128 * other.d as i128;
        scalar_from_raw(n, d)
    }

    /// Exact difference; `None` exactly when the result leaves the range.
    pub fn sub(&self, other: &Scalar) -> (r: Option<Scalar>)
        ensures
            view_opt(r) == checked(rat_sub(self@, other@)),
    {
        proof {
            use_type_invariant(self);
            use_type_invariant(other);
            lemma_wide_products(self@, other@);
        }
        let n = self.n as i128 * other.d as i128 - other.n as i128 * self.d as i128;
        let d = self.d as i128 * other.d as i128;
        scalar_from_raw(n, d)
    }

    /// Exact product; `None` exactly when the result leaves the range.
    pub fn mul(&self, other: &Scalar) -> (r: Option<Scalar>)
        ensures
            view_opt(r) == checked(rat_mul(self@, other@)),
    {
        proof {
            use_type_invariant(self);
            use_type_invariant(other);
            lemma_wide_products(self@, other@);
        }
        let n = self.n as i128 * other.n as i128;
        let d = self.d as i128 * other.d as i128;
        scalar_from_raw(n, d)
    }

    /// Exact quotient; `None` exactly when the result leaves the range.
    /// Division by zero is excluded, as the mathematical quotient does not
    /// exist there.
    pub fn div(&self, other: &Scalar) -> (r: Option<Scalar>)
        requires
            other@.n != 0,
        ensures
            view_opt(r) == checked(rat_div(self@, other@)),
    {
        proof {
            use_type_invariant(self);
            use_type_invariant(other);
            lemma_wide_products(self@, other@);
        }
        let n = self.n as i128 * other.d as i128;
        let d = self.d as i128 * other.n as i128;
        if other.n < 0 {
            proof {
                assert(1 <= self@.d * (-other@.n) && self@.d * (-other@.n) == -(self@.d
                    * other@.n) && self@.n * (-other@.d) == -(self@.n * other@.d))
                    by (nonlinear_arith)
                    requires
                        1 <= self@.d,
                        other@.n <= -1,
                {}
            }
            scalar_from_raw(-n, -d)
        } else {
            proof {
                assert(1 <= self@.d * other@.n) by (nonlinear_arith)
                    requires
                        1 <= self@.d,
                        1 <= other@.n,
                {}
            }
            scalar_from_raw(n, d)
        }
    }

    /// Exact negation; always representable.
    pub fn neg(&self) -> (r: Scalar)
        ensures
            r@ == rat_neg(self@),
    {
        proof {
            use_type_invariant(self);
        }
        Scalar { n: -self.n, d: self.d }
    }

    /// Whether this scalar denotes zero.
    pub fn is_zero(&self) -> (r: bool)
        ensures
            r == (self@.n == 0),
    {
        self.n == 0
    }
}

impl PartialEq for Scalar {
    /// Exact equality of the denoted rationals.
    fn eq(&self, other: &Scalar) -> (r: bool) {
        proof {
            lemma_i64_mul_fits(self@.n, other@.d);
            lemma_i64_mul_fits(other@.n, self@.d);
        }
        self.n as i128 * other.d as i128 == other.n as i128 * self.d as i128
    }
}

/// The product of any two `i64` values fits an `i128`.
pub proof fn lemma_i64_mul_fits(a: int, b: int)
    requires
        i64::MIN as int <= a <= i64::MAX as int,
        i64::MIN as int <= b <= i64::MAX as int,
    ensures
        -0x80000000000000000000000000000000 < a * b,
        a * b < 0x7fffffffffffffffffffffffffffffff,
{
    assert(-0x80000000000000000000000000000000 < a * b
        && a * b < 0x7fffffffffffffffffffffffffffffff) by (nonlinear_arith)
        requires
            -0x8000000000000000 <= a <= 0x7fffffffffffffff,
            -0x8000000000000000 <= b <= 0x7fffffffffffffff,
    {}
}

impl vstd::std_specs::cmp::PartialEqSpecImpl for Scalar {
    open spec fn obeys_eq_spec() -> bool {
        true
    }

    open spec fn eq_spec(&self, other: &Scalar) -> bool {
        rat_eq(self.view(), other.view())
    }
}

/// All cross products of two representable rationals fit the wide
/// intermediate type with room for one addition.
pub proof fn lemma_wide_products(a: Rat, b: Rat)
    requires
        in_range(a),
        in_range(b),
    ensures
        -(i64::MAX as int) * (i64::MAX as int) <= a.n * b.d <= (i64::MAX as int) * (i64::MAX as int),
        -(i64::MAX as int) * (i64::MAX as int) <= b.n * a.d <= (i64::MAX as int) * (i64::MAX as int),
        -(i64::MAX as int) * (i64::MAX as int) <= a.n * b.n <= (i64::MAX as int) * (i64::MAX as int),
        1 <= a.d * b.d <= (i64::MAX as int) * (i64::MAX as int),
        -(i64::MAX as int) * (i64::MAX as int) <= a.d * b.n <= (i64::MAX as int) * (i64::MAX as int),
        2 * ((i64::MAX as int) * (i64::MAX as int)) < i128::MAX as int,
{
    let m = i64::MAX as int;
    assert(-(m * m) <= a.n * b.d <= m * m && -(m * m) <= b.n * a.d <= m * m && -(m * m) <= a.n
        * b.n <= m * m && 1 <= a.d * b.d <= m * m && -(m * m) <= a.d * b.n <= m * m)
        by (nonlinear_arith)
        requires
            -m <= a.n <= m,
            1 <= a.d <= m,
            -m <= b.n <= m,
            1 <= b.d <= m,
            0 < m,
    {}
}

/// Euclid's algorithm, computing the specification-level `gcd`.
fn gcd_u128(a: u128, b: u128) -> (g: u128)
    ensures
        g as nat == gcd(a as nat, b as nat),
{
    let mut x = a;
    let mut y = b;
    while y != 0
        invariant
            gcd(x as nat, y as nat) == gcd(a as nat, b as nat),
        decreases y,
    {
        let r = x % y;
        x = y;
        y = r;
    }
    x
}

/// Builds the reduced scalar for the exact raw fraction `n / d`, or `None`
/// when the reduced form leaves the `i64` range.
fn scalar_from_raw(n: i128, d: i128) -> (r: Option<Scalar>)
    requires
        1 <= d,
        i128::MIN < n,
    ensures
        view_opt(r) == checked(Rat { n: n as int, d: d as int }),
{
    let ghost q = Rat { n: n as int, d: d as int };
    let na: u128 = if n >= 0 {
        n as u128
    } else {
        (-n) as u128
    };
    let g = gcd_u128(na, d as u128);
    proof {
        lemma_reduce(q);
        assert(abs(q.n) == na as nat);
        assert(g as int == gcd(abs(q.n), q.d as nat));
        lemma_gcd_divides(abs(q.n), q.d as nat);
        assert(1 <= g);
        lemma_divides_signed(q.n, g as int);
        lemma_exact_div(q.n, g as int);
        lemma_exact_div(q.d, g as int);
        lemma_exact_div(abs(q.n) as int, g as int);
        if q.n < 0 {
            // Truncating unsigned division of `abs(n)` agrees with the exact
            // signed quotient.
            assert(q.n / g as int == -(abs(q.n) as int / g as int)) by (nonlinear_arith)
                requires
                    1 <= g as int,
                    q.n < 0,
                    abs(q.n) == -q.n,
                    q.n == (q.n / g as int) * (g as int),
                    abs(q.n) as int == (abs(q.n) as int / g as int) * (g as int),
            {}
        }
    }
    let nr = na / g;
    let dr = (d as u128) / g;
    proof {
        assert(nr as int == abs(q.n) as int / g as int);
        assert(dr as int == reduce(q).d);
    }
    if nr <= i64::MAX as u128 && dr <= i64::MAX as u128 {
        let rn: i64 = if n >= 0 {
            nr as i64
        } else {
            -(nr as i64)
        };
        Some(Scalar { n: rn, d: dr as i64 })
    } else {
        None
    }
}

} // verus!
