//! The protocol rounds around the primitives: parameters, party indices, share
//! dealing, pairwise Feldman checks with complaints, and share aggregation.
use crate::feldman::{feldman_accepts, verify_share};
use crate::group::{group_order, point_logs, scalar_values, seq_sum, sum_scalars, Point, Scalar};
use crate::polynomial::{horner, Polynomial};
use vstd::prelude::*;

verus! {

/// Why a set of protocol parameters was refused.
#[derive(Clone, Copy, Debug, PartialEq, Eq, Structural)]
pub enum ParameterError {
    /// The threshold is zero.
    ZeroThreshold,
    /// The threshold exceeds the number of parties.
    ThresholdAboveParties,
}

/// Checks the parameters of a `(threshold, parties)` scheme: `1 <= threshold <= parties`.
pub fn validate_parameters(parties: usize, threshold: usize) -> (r: Result<(), ParameterError>)
    ensures
        r is Ok <==> 1 <= threshold <= parties,
        threshold == 0 ==> r == Err::<(), ParameterError>(ParameterError::ZeroThreshold),
        1 <= threshold && threshold > parties ==> r == Err::<(), ParameterError>(
            ParameterError::ThresholdAboveParties,
        ),
{
    if threshold == 0 {
        Err(ParameterError::ZeroThreshold)
    } else if threshold > parties {
        Err(ParameterError::ThresholdAboveParties)
    } else {
        Ok(())
    }
}

/// The indices `1, 2, ..., parties` of the parties, as scalars.
pub fn party_indices(parties: usize) -> (r: Vec<Scalar>)
    requires
        parties < u64::MAX,
    ensures
        r.len() == parties,
        forall|i: int| 0 <= i < parties ==> #[trigger] r@[i]@ == i + 1,
{
    let mut xs: Vec<Scalar> = Vec::new();
    let mut k: usize = 0;
    while k < parties
        invariant
            k <= parties,
            parties < u64::MAX,
            xs.len() == k,
            forall|i: int| 0 <= i < k ==> #[trigger] xs@[i]@ == i + 1,
        decreases parties - k,
    {
        xs.push(Scalar::from_u64(k as u64 + 1));
        k += 1;
    }
    xs
}

/// The shares that the owner of `poly` deals: its value at each index.
pub fn deal_shares(poly: &Polynomial, xs: &Vec<Scalar>) -> (r: Vec<Scalar>)
    ensures
        r.len() == xs.len(),
        forall|j: int|
            0 <= j < xs.len() ==> #[trigger] r@[j]@ == horner(poly.coeff_values(), xs@[j]@ as int)
                % group_order() as int,
{
    let mut shares: Vec<Scalar> = Vec::new();
    let mut j: usize = 0;
    while j < xs.len()
        invariant
            j <= xs.len(),
            shares.len() == j,
            forall|a: int|
                0 <= a < j ==> #[trigger] shares@[a]@ == horner(poly.coeff_values(), xs@[a]@ as int)
                    % group_order() as int,
        decreases xs.len() - j,
    {
        shares.push(poly.evaluate(&xs[j]));
        j += 1;
    }
    shares
}

/// A receiver's complaint that the share a sender dealt it fails the Feldman
/// check; it makes the disputed share public so that anyone can re-check it.
#[derive(Clone, Copy)]
pub struct Complaint {
    pub sender: usize,
    pub receiver: usize,
    pub share: Scalar,
}

/// Whether the share that `sender` dealt to `receiver` passes the Feldman check
/// against the sender's verification vector.
pub open spec fn share_accepted(
    vvs: Seq<Vec<Point>>,
    shares: Seq<Vec<Scalar>>,
    xs: Seq<Scalar>,
    sender: int,
    receiver: int,
) -> bool {
    feldman_accepts(
        point_logs(vvs[sender]@),
        shares[sender]@[receiver]@ as int,
        xs[receiver]@ as int,
    )
}

/// Every receiver checks the share dealt to it by every other party;
/// `shares[i][j]` is what party `i` dealt to party `j`, and `vvs[i]` is party
/// `i`'s verification vector. The result holds one complaint for each failing
/// pair and nothing else.
pub fn find_complaints(
    vvs: &Vec<Vec<Point>>,
    shares: &Vec<Vec<Scalar>>,
    xs: &Vec<Scalar>,
) -> (r: Vec<Complaint>)
    requires
        vvs.len() == xs.len(),
        shares.len() == xs.len(),
        forall|i: int| 0 <= i < shares.len() ==> #[trigger] shares@[i].len() == xs.len(),
    ensures
        forall|c: int|
            0 <= c < r.len() ==> {
                let k = #[trigger] r@[c];
                &&& k.sender < xs.len()
                &&& k.receiver < xs.len()
                &&& k.sender != k.receiver
                &&& k.share == shares@[k.sender as int]@[k.receiver as int]
                &&& !share_accepted(vvs@, shares@, xs@, k.sender as int, k.receiver as int)
            },
        forall|i: int, j: int|
            0 <= i < xs.len() && 0 <= j < xs.len() && i != j && !share_accepted(
                vvs@,
                shares@,
                xs@,
                i,
                j,
            ) ==> exists|c: int|
                0 <= c < r.len() && (#[trigger] r@[c]).sender == i && r@[c].receiver == j,
        forall|c: int, d: int|
            0 <= c < r.len() && 0 <= d < r.len() && c != d ==> !((#[trigger] r@[c]).sender
                == (#[trigger] r@[d]).sender && r@[c].receiver == r@[d].receiver),
{
    let n = xs.len();
    let mut out: Vec<Complaint> = Vec::new();
    let mut i: usize = 0;
    while i < n
        invariant
            i <= n,
            n == xs.len(),
            vvs.len() == n,
            shares.len() == n,
            forall|a: int| 0 <= a < shares.len() ==> #[trigger] shares@[a].len() == n,
            forall|c: int|
                0 <= c < out.len() ==> {
                    let k = #[trigger] out@[c];
                    &&& k.sender < n
                    &&& k.receiver < n
                    &&& k.sender != k.receiver
                    &&& k.share == shares@[k.sender as int]@[k.receiver as int]
                    &&& !share_accepted(vvs@, shares@, xs@, k.sender as int, k.receiver as int)
                },
            forall|a: int, b: int|
                0 <= a < i && 0 <= b < n && a != b && !share_accepted(vvs@, shares@, xs@, a, b)
                    ==> exists|c: int|
                    0 <= c < out.len() && (#[trigger] out@[c]).sender == a && out@[c].receiver == b,
            forall|c: int| 0 <= c < out.len() ==> (#[trigger] out@[c]).sender < i,
            forall|c: int, d: int|
                0 <= c < out.len() && 0 <= d < out.len() && c != d ==> !((#[trigger] out@[c]).sender
                    == (#[trigger] out@[d]).sender && out@[c].receiver == out@[d].receiver),
        decreases n - i,
    {
        let mut j: usize = 0;
        while j < n
            invariant
                i < n,
                j <= n,
                n == xs.len(),
                vvs.len() == n,
                shares.len() == n,
                forall|a: int| 0 <= a < shares.len() ==> #[trigger] shares@[a].len() == n,
                forall|c: int|
                    0 <= c < out.len() ==> {
                        let k = #[trigger] out@[c];
                        &&& k.sender < n
                        &&& k.receiver < n
                        &&& k.sender != k.receiver
                        &&& k.share == shares@[k.sender as int]@[k.receiver as int]
                        &&& !share_accepted(vvs@, shares@, xs@, k.sender as int, k.receiver as int)
                    },
                forall|a: int, b: int|
                    ((0 <= a < i && 0 <= b < n) || (a == i && 0 <= b < j)) && a != b
                        && !share_accepted(vvs@, shares@, xs@, a, b) ==> exists|c: int|
                        0 <= c < out.len() && (#[trigger] out@[c]).sender == a && out@[c].receiver
                            == b,
                forall|c: int|
                    0 <= c < out.len() ==> (#[trigger] out@[c]).sender < i || (out@[c].sender == i
                        && out@[c].receiver < j),
                forall|c: int, d: int|
                    0 <= c < out.len() && 0 <= d < out.len() && c != d ==> !((#[trigger] out@[
                        c]).sender == (#[trigger] out@[d]).sender && out@[c].receiver
                        == out@[d].receiver),
            decreases n - j,
        {
            assert(shares@[i as int].len() == n);
            if i != j {
                let ok = verify_share(&vvs[i], &shares[i][j], &xs[j]);
                if !ok {
                    let ghost before = out@;
                    out.push(Complaint { sender: i, receiver: j, share: shares[i][j] });
                    proof {
                        assert forall|a: int, b: int|
                            ((0 <= a < i && 0 <= b < n) || (a == i && 0 <= b < j + 1)) && a != b
                                && !share_accepted(vvs@, shares@, xs@, a, b) implies exists|c: int|
                            0 <= c < out.len() && (#[trigger] out@[c]).sender == a
                                && out@[c].receiver == b by {
                            if a == i && b == j {
                                assert(out@[before.len() as int].sender == a);
                            } else {
                                let c = choose|c: int|
                                    0 <= c < before.len() && (#[trigger] before[c]).sender == a
                                        && before[c].receiver == b;
                                assert(out@[c] == before[c]);
                            }
                        }
                    }
                }
            }
            j += 1;
        }
        i += 1;
    }
    out
}

/// A party's final share: the sum of the shares that every party dealt it.
pub fn aggregate_shares(received: &Vec<Scalar>) -> (r: Scalar)
    ensures
        r@ == seq_sum(scalar_values(received@)) % group_order() as int,
{
    sum_scalars(received)
}

} // verus!
