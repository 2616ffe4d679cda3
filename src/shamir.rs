//! Shamir reconstruction: Lagrange interpolation at zero.
use crate::group::{field_inv, group_order, lemma_scalar_bound, scalar_values, sub_mod, Scalar};
use vstd::arithmetic::div_mod::{lemma_mod_add_multiples_vanish, lemma_small_mod};
use vstd::prelude::*;

verus! {

/// Why a reconstruction was refused.
#[derive(Clone, Copy, Debug, PartialEq, Eq, Structural)]
pub enum ReconstructionError {
    /// The numbers of indices and of shares differ.
    MismatchedLengths,
    /// Fewer shares than the threshold were supplied.
    NotEnoughShares,
    /// Two indices are equal, so `x_j − x_i` is zero and has no inverse.
    DuplicateIndex,
}

/// Whether two positions of `xs` hold the same index.
pub open spec fn has_duplicate(xs: Seq<int>) -> bool {
    exists|i: int, j: int| 0 <= i < xs.len() && 0 <= j < xs.len() && i != j && xs[i] == xs[j]
}

/// `x_j · (x_j − x_i)^{-1}`.
pub open spec fn lagrange_factor(xj: int, xi: int) -> nat {
    ((xj * field_inv(sub_mod(xj, xi))) % group_order() as int) as nat
}

/// `Π_{j < k, j ≠ i} x_j · (x_j − x_i)^{-1}`.
pub open spec fn lagrange_partial(xs: Seq<int>, i: int, k: int) -> nat
    decreases k,
{
    if k <= 0 {
        1
    } else if k - 1 == i {
        lagrange_partial(xs, i, k - 1)
    } else {
        (lagrange_partial(xs, i, k - 1) * lagrange_factor(xs[k - 1], xs[i])) % group_order()
    }
}

/// The Lagrange coefficient of position `i` for interpolation at zero:
/// `c_i = Π_{j ≠ i} x_j · (x_j − x_i)^{-1}`.
pub open spec fn lagrange_coeff(xs: Seq<int>, i: int) -> nat {
    lagrange_partial(xs, i, xs.len() as int)
}

/// `Σ_{i < k} c_i · ys[i]`.
pub open spec fn interpolate_partial(xs: Seq<int>, ys: Seq<int>, k: int) -> nat
    decreases k,
{
    if k <= 0 {
        0
    } else {
        (interpolate_partial(xs, ys, k - 1) + (lagrange_coeff(xs, k - 1) * ys[k - 1])
            % group_order() as int) as nat % group_order()
    }
}

/// The value at zero of the polynomial through the points `(xs[i], ys[i])`.
pub open spec fn interpolate_at_zero(xs: Seq<int>, ys: Seq<int>) -> nat {
    interpolate_partial(xs, ys, xs.len() as int)
}

proof fn lemma_sub_mod_zero(a: int, b: int)
    requires
        0 <= a < group_order(),
        0 <= b < group_order(),
        sub_mod(a, b) == 0,
    ensures
        a == b,
{
    let m = group_order() as int;
    if a > b {
        lemma_small_mod((a - b) as nat, m as nat);
    } else if a < b {
        lemma_mod_add_multiples_vanish(a - b, m);
        lemma_small_mod((m + a - b) as nat, m as nat);
    }
}

/// The Lagrange coefficients at zero of the indices `xs`; refused when two
/// indices are equal.
pub fn lagrange_coeffs_at_zero(xs: &Vec<Scalar>) -> (r: Result<Vec<Scalar>, ReconstructionError>)
    ensures
        r is Err <==> has_duplicate(scalar_values(xs@)),
        r is Err ==> r->Err_0 == ReconstructionError::DuplicateIndex,
        r is Ok ==> r->Ok_0.len() == xs.len() && forall|i: int|
            0 <= i < xs.len() ==> #[trigger] r->Ok_0@[i]@ == lagrange_coeff(
                scalar_values(xs@),
                i,
            ),
{
    let n = xs.len();
    let ghost xv = scalar_values(xs@);
    let mut cs: Vec<Scalar> = Vec::new();
    let mut i: usize = 0;
    while i < n
        invariant
            i <= n,
            n == xs.len(),
            xv == scalar_values(xs@),
            cs.len() == i,
            forall|a: int| 0 <= a < i ==> #[trigger] cs@[a]@ == lagrange_coeff(xv, a),
            forall|a: int, b: int|
                0 <= a < i && 0 <= b < n && a != b ==> #[trigger] xv[a] != #[trigger] xv[b],
        decreases n - i,
    {
        let mut c = Scalar::one();
        let mut j: usize = 0;
        while j < n
            invariant
                i < n,
                j <= n,
                n == xs.len(),
                xv == scalar_values(xs@),
                cs.len() == i,
                forall|a: int| 0 <= a < i ==> #[trigger] cs@[a]@ == lagrange_coeff(xv, a),
                forall|a: int, b: int|
                    0 <= a < i && 0 <= b < n && a != b ==> #[trigger] xv[a] != #[trigger] xv[b],
                forall|b: int| 0 <= b < j && b != i ==> xv[i as int] != #[trigger] xv[b],
                c@ == lagrange_partial(xv, i as int, j as int),
            decreases n - j,
        {
            if j != i {
                let d = xs[j].sub(&xs[i]);
                match d.invert() {
                    None => {
                        proof {
                            lemma_scalar_bound(xs@[j as int]);
                            lemma_scalar_bound(xs@[i as int]);
                            lemma_sub_mod_zero(xv[j as int], xv[i as int]);
                            assert(xv[j as int] == xv[i as int]);
                        }
                        return Err(ReconstructionError::DuplicateIndex);
                    },
                    Some(inv) => {
                        let f = xs[j].mul(&inv);
                        c = c.mul(&f);
                        proof {
                            if xv[j as int] == xv[i as int] {
                                assert(sub_mod(xv[j as int], xv[i as int]) == 0);
                            }
                        }
                    },
                }
            }
            j += 1;
        }
        cs.push(c);
        i += 1;
    }
    proof {
        if has_duplicate(xv) {
            let (a, b) = choose|a: int, b: int|
                0 <= a < xv.len() && 0 <= b < xv.len() && a != b && xv[a] == xv[b];
            assert(xv[a] != xv[b]);
        }
    }
    Ok(cs)
}

/// The secret `Σ_i c_i · shares[i]` that the shares at indices `xs` interpolate
/// to at zero. Refused when the lengths differ, when fewer than `threshold`
/// shares are supplied, or when two indices are equal.
pub fn shamir_reconstruct(xs: &Vec<Scalar>, shares: &Vec<Scalar>, threshold: usize) -> (r: Result<
    Scalar,
    ReconstructionError,
>)
    ensures
        (r == Err::<Scalar, ReconstructionError>(ReconstructionError::MismatchedLengths)) <==> xs.len()
            != shares.len(),
        xs.len() == shares.len() ==> ((r == Err::<Scalar, ReconstructionError>(
            ReconstructionError::NotEnoughShares,
        )) <==> xs.len() < threshold),
        xs.len() == shares.len() && xs.len() >= threshold ==> ((r == Err::<
            Scalar,
            ReconstructionError,
        >(ReconstructionError::DuplicateIndex)) <==> has_duplicate(scalar_values(xs@))),
        r is Ok ==> r->Ok_0@ == interpolate_at_zero(scalar_values(xs@), scalar_values(shares@)),
{
    if xs.len() != shares.len() {
        return Err(ReconstructionError::MismatchedLengths);
    }
    if xs.len() < threshold {
        return Err(ReconstructionError::NotEnoughShares);
    }
    let cs = match lagrange_coeffs_at_zero(xs) {
        Ok(cs) => cs,
        Err(e) => {
            return Err(e);
        },
    };
    let n = xs.len();
    let ghost xv = scalar_values(xs@);
    let ghost yv = scalar_values(shares@);
    let mut res = Scalar::zero();
    let mut i: usize = 0;
    while i < n
        invariant
            i <= n,
            n == xs.len(),
            n == shares.len(),
            n == cs.len(),
            xv == scalar_values(xs@),
            yv == scalar_values(shares@),
            forall|a: int| 0 <= a < n ==> #[trigger] cs@[a]@ == lagrange_coeff(xv, a),
            res@ == interpolate_partial(xv, yv, i as int),
        decreases n - i,
    {
        let term = cs[i].mul(&shares[i]);
        res = res.add(&term);
        i += 1;
    }
    Ok(res)
}

} // verus!
