//! Feldman verification of shares against published coefficient commitments.
use crate::group::{group_order, point_logs, Point, Scalar};
use crate::polynomial::{horner, lemma_horner_is_power_sum, power_sum, Polynomial};
use vstd::arithmetic::div_mod::{lemma_add_mod_noop, lemma_mul_mod_noop_left};
use vstd::arithmetic::power::{lemma_pow0, pow};
use vstd::prelude::*;

verus! {

/// Whether `share` is consistent with the verification vector `vv` at index `x`:
/// `share·G == Σ_k x^k·vv[k]`, in discrete logarithms.
pub open spec fn feldman_accepts(vv: Seq<int>, share: int, x: int) -> bool {
    share == power_sum(vv, x) % group_order() as int
}

/// The verification vector of `poly`: the commitment `coeffs[k]·G` to every one
/// of its coefficients, the top-degree one included.
pub fn verification_vector(poly: &Polynomial) -> (r: Vec<Point>)
    ensures
        point_logs(r@) == poly.coeff_values(),
{
    let n = poly.coeffs.len();
    let mut vv: Vec<Point> = Vec::new();
    let mut k: usize = 0;
    while k < n
        invariant
            k <= n,
            n == poly.coeffs.len(),
            vv.len() == k,
            forall|j: int| 0 <= j < k ==> #[trigger] vv@[j]@ == poly.coeffs@[j]@,
        decreases n - k,
    {
        vv.push(Point::base_mul(&poly.coeffs[k]));
        k += 1;
    }
    assert(point_logs(vv@) =~= poly.coeff_values());
    vv
}

proof fn lemma_power_sum_step(f: Seq<int>, x: int, k: int)
    requires
        0 <= k < f.len(),
    ensures
        power_sum(f.take(k + 1), x) == power_sum(f.take(k), x) + f[k] * pow(x, k as nat),
{
    assert(f.take(k + 1).drop_last() =~= f.take(k));
}

/// Checks a received share against the sender's verification vector:
/// `share·G == Σ_k x^k·vv[k]`.
pub fn verify_share(vv: &Vec<Point>, share: &Scalar, x: &Scalar) -> (r: bool)
    ensures
        r == feldman_accepts(point_logs(vv@), share@ as int, x@ as int),
{
    let n = vv.len();
    let ghost f = point_logs(vv@);
    let ghost xv = x@ as int;
    let ghost m = group_order() as int;
    let mut acc = Point::identity();
    let mut pw = Scalar::one();
    let mut k: usize = 0;
    proof {
        lemma_pow0(xv);
        assert(f.take(0).len() == 0);
    }
    while k < n
        invariant
            k <= n,
            n == vv.len(),
            f == point_logs(vv@),
            xv == x@ as int,
            m == group_order() as int,
            acc@ == power_sum(f.take(k as int), xv) % m,
            pw@ == pow(xv, k as nat) % m,
        decreases n - k,
    {
        let term = vv[k].mul(&pw);
        acc = acc.add(&term);
        let next = pw.mul(x);
        proof {
            let ps = power_sum(f.take(k as int), xv);
            let pk = pow(xv, k as nat);
            lemma_power_sum_step(f, xv, k as int);
            lemma_mul_mod_noop_left(pk, f[k as int], m);
            assert((pw@ as int) * f[k as int] == f[k as int] * (pw@ as int)) by (nonlinear_arith);
            assert(pk * f[k as int] == f[k as int] * pk) by (nonlinear_arith);
            lemma_add_mod_noop(ps, f[k as int] * pk, m);
            assert(ps % m % m == ps % m) by {
                vstd::arithmetic::div_mod::lemma_mod_twice(ps, m);
            }
            assert((f[k as int] * pk) % m % m == (f[k as int] * pk) % m) by {
                vstd::arithmetic::div_mod::lemma_mod_twice(f[k as int] * pk, m);
            }
            lemma_mul_mod_noop_left(pk, xv, m);
            assert(pow(xv, (k + 1) as nat) == xv * pk) by {
                reveal(pow);
            }
            assert(pk * xv == xv * pk) by (nonlinear_arith);
        }
        pw = next;
        k += 1;
    }
    assert(f.take(n as int) =~= f);
    let expected = Point::base_mul(share);
    expected.equals(&acc)
}

/// The Feldman equation: for every polynomial and every index `x`,
/// `evaluate(poly, x)·G == Σ_k x^k·(coeffs[k]·G)`, so an honestly computed share
/// always passes verification against the honest verification vector.
pub proof fn lemma_feldman_equation(coeffs: Seq<int>, x: int)
    ensures
        feldman_accepts(coeffs, horner(coeffs, x) % group_order() as int, x),
{
    lemma_horner_is_power_sum(coeffs, x);
}

} // verus!
