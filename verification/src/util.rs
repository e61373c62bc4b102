//! The canonical comparison tolerance.
//!
//! Scalar arithmetic in this crate is exact, yet tuples, colors and
//! matrices still compare approximately: two values are equal when every
//! component differs by less than the single tolerance below. Exactly
//! equal values always compare equal; callers that approximate irrational
//! quantities (square roots, trigonometry) compare within the same
//! tolerance.

use vstd::prelude::*;

verus! {

use vstd::arithmetic::div_mod::{
    lemma_fundamental_div_mod,
    lemma_div_is_ordered,
    lemma_div_multiples_vanish,
    lemma_mod_bound,
};
use vstd::arithmetic::mul::lemma_mul_inequality;
use crate::rational::{
    Rat, Scalar, rat_abs, rat_eq, rat_lt, rat_sub, rat_wf, lemma_wide_products,
};

/// The tolerance used by approximate comparison: one part in a billion.
pub open spec fn epsilon() -> Rat {
    Rat { n: 1, d: 1000000000 }
}

/// Whether `a` and `b` differ by less than `epsilon()`.
pub open spec fn rat_near(a: Rat, b: Rat) -> bool {
    rat_lt(rat_abs(rat_sub(a, b)), epsilon())
}

/// Exactly equal rationals are in particular approximately equal.
pub proof fn lemma_rat_eq_implies_near(a: Rat, b: Rat)
    requires
        rat_wf(a),
        rat_wf(b),
        rat_eq(a, b),
    ensures
        rat_near(a, b),
{
    assert(rat_sub(a, b).n == 0);
    assert(1 <= a.d * b.d) by (nonlinear_arith)
        requires
            1 <= a.d,
            1 <= b.d,
    {}
}

/// Whether `a` and `b` differ by less than `epsilon()`.
pub fn almost_equal(a: &Scalar, b: &Scalar) -> (r: bool)
    ensures
        r == rat_near(a@, b@),
{
    a.wf_facts();
    b.wf_facts();
    proof {
        lemma_wide_products(a@, b@);
    }
    let n0: i128 = a.num() as i128 * b.den() as i128 - b.num() as i128 * a.den() as i128;
    let d0: i128 = a.den() as i128 * b.den() as i128;
    let na: u128 = if n0 >= 0 {
        n0 as u128
    } else {
        (-n0) as u128
    };
    let q = ((d0 - 1) as u128) / 1000000000;
    let r = na <= q;
    proof {
        let e: int = 1000000000;
        let s = rat_sub(a@, b@);
        let m = rat_abs(s);
        assert(m.n == na as int && m.d == d0 as int);
        // `na <= (d0 - 1) / e` holds exactly when `na * e < d0`.
        lemma_fundamental_div_mod(d0 as int - 1, e);
        lemma_mod_bound(d0 as int - 1, e);
        if r {
            lemma_mul_inequality(na as int, (d0 as int - 1) / e, e);
            assert(((d0 as int - 1) / e) * e == e * ((d0 as int - 1) / e));
            assert(m.n * epsilon().d < epsilon().n * m.d);
        } else {
            if m.n * epsilon().d < epsilon().n * m.d {
                assert(na as int * e <= d0 as int - 1);
                lemma_div_is_ordered(na as int * e, d0 as int - 1, e);
                lemma_div_multiples_vanish(na as int, e);
                assert(e * (na as int) == na as int * e);
                assert(false);
            }
        }
    }
    r
}

} // verus!
