//! Polynomials over the scalar field, with their evaluation.
use crate::group::{group_order, scalar_values, Scalar};
use vstd::arithmetic::div_mod::{lemma_add_mod_noop_right, lemma_mul_mod_noop_left};
use vstd::arithmetic::power::{lemma_pow0, pow};
use vstd::prelude::*;

verus! {

/// `cs[0] + x·(cs[1] + x·(cs[2] + ...))`, over the integers.
pub open spec fn horner(cs: Seq<int>, x: int) -> int
    decreases cs.len(),
{
    if cs.len() == 0 {
        0
    } else {
        cs[0] + x * horner(cs.skip(1), x)
    }
}

/// `Σ_k cs[k]·x^k`, over the integers.
pub open spec fn power_sum(cs: Seq<int>, x: int) -> int
    decreases cs.len(),
{
    if cs.len() == 0 {
        0
    } else {
        power_sum(cs.drop_last(), x) + cs.last() * pow(x, (cs.len() - 1) as nat)
    }
}

/// Splitting off the constant term of a power sum.
proof fn lemma_power_sum_first(cs: Seq<int>, x: int)
    requires
        cs.len() > 0,
    ensures
        power_sum(cs, x) == cs[0] + x * power_sum(cs.skip(1), x),
    decreases cs.len(),
{
    let n = cs.len();
    if n == 1 {
        lemma_pow0(x);
        assert(cs.drop_last().len() == 0);
        assert(cs.skip(1).len() == 0);
        assert(power_sum(cs.skip(1), x) == 0);
        assert(power_sum(cs.drop_last(), x) == 0);
        assert(pow(x, (cs.len() - 1) as nat) == 1);
        assert(cs.last() == cs[0]);
        assert(power_sum(cs, x) == cs[0]);
        assert(x * 0 == 0);
    } else {
        let d = cs.drop_last();
        let t = cs.skip(1);
        lemma_power_sum_first(d, x);
        assert(d.skip(1) =~= t.drop_last());
        assert(t.last() == cs.last());
        assert(pow(x, (n - 1) as nat) == x * pow(x, (n - 2) as nat)) by {
            reveal(pow);
        }
        let p1 = power_sum(t.drop_last(), x);
        let e = pow(x, (n - 2) as nat);
        assert(d[0] == cs[0]);
        assert(power_sum(cs, x) == power_sum(d, x) + cs.last() * pow(x, (n - 1) as nat));
        assert(power_sum(d, x) == cs[0] + x * p1);
        assert(power_sum(t, x) == p1 + t.last() * pow(x, (t.len() - 1) as nat));
        assert(x * p1 + cs.last() * (x * e) == x * (p1 + cs.last() * e)) by (nonlinear_arith);
    }
}

/// Horner's form and the power sum are the same polynomial.
pub proof fn lemma_horner_is_power_sum(cs: Seq<int>, x: int)
    ensures
        horner(cs, x) == power_sum(cs, x),
    decreases cs.len(),
{
    if cs.len() > 0 {
        lemma_horner_is_power_sum(cs.skip(1), x);
        lemma_power_sum_first(cs, x);
    }
}

/// One step of Horner's rule stays consistent modulo the group order.
proof fn lemma_horner_step_mod(h: int, x: int, c: int)
    ensures
        (((h % group_order() as int) * x) % group_order() as int + c) % group_order() as int
            == (c + x * h) % group_order() as int,
{
    let m = group_order() as int;
    lemma_mul_mod_noop_left(h, x, m);
    lemma_add_mod_noop_right(c, h * x, m);
    assert(h * x == x * h) by (nonlinear_arith);
    assert(((h % m) * x) % m + c == c + ((h * x) % m));
}

/// A polynomial `Σ_k coeffs[k]·x^k` over the scalar field.
pub struct Polynomial {
    pub coeffs: Vec<Scalar>,
}

impl Polynomial {
    /// The coefficients' values, constant term first.
    pub open spec fn coeff_values(&self) -> Seq<int> {
        scalar_values(self.coeffs@)
    }

    /// A polynomial of the given degree whose constant term is `secret` and whose
    /// other coefficients are drawn uniformly at random.
    pub fn random(secret: &Scalar, degree: usize) -> (r: Polynomial)
        requires
            degree < usize::MAX,
        ensures
            r.coeffs.len() == degree + 1,
            r.coeffs[0]@ == secret@,
    {
        let mut coeffs: Vec<Scalar> = Vec::new();
        coeffs.push(*secret);
        let mut k: usize = 0;
        while k < degree
            invariant
                k <= degree,
                coeffs.len() == k + 1,
                coeffs[0]@ == secret@,
            decreases degree - k,
        {
            coeffs.push(Scalar::random());
            k += 1;
        }
        Polynomial { coeffs }
    }

    /// The value of the polynomial at `x`, by Horner's rule.
    pub fn evaluate(&self, x: &Scalar) -> (r: Scalar)
        ensures
            r@ == horner(self.coeff_values(), x@ as int) % group_order() as int,
    {
        let n = self.coeffs.len();
        let ghost cv = self.coeff_values();
        let mut acc = Scalar::zero();
        let mut k: usize = n;
        assert(cv.skip(n as int).len() == 0);
        while k > 0
            invariant
                k <= n,
                n == self.coeffs.len(),
                cv == self.coeff_values(),
                acc@ == horner(cv.skip(k as int), x@ as int) % group_order() as int,
            decreases k,
        {
            k -= 1;
            let t = acc.mul(x);
            acc = t.add(&self.coeffs[k]);
            proof {
                let s = cv.skip(k as int);
                assert(s.skip(1) =~= cv.skip(k + 1));
                assert(s[0] == self.coeffs@[k as int]@ as int);
                lemma_horner_step_mod(horner(s.skip(1), x@ as int), x@ as int, s[0]);
            }
        }
        assert(cv.skip(0) =~= cv);
        acc
    }
}

} // verus!
