//! Pedersen blinding of public points with a second, independent base point.
use crate::group::{
    group_order, hashed_point_log, point_logs, scalar_values, seq_sum, sub_mod, sum_points, Point,
    Scalar,
};
use vstd::arithmetic::div_mod::{lemma_small_mod, lemma_sub_mod_noop};
use vstd::prelude::*;

verus! {

/// The fixed public seed that the second base point is hashed from: 32 bytes of `0xff`.
pub open spec fn pedersen_seed() -> Seq<u8> {
    Seq::new(32, |i: int| 255u8)
}

/// The discrete logarithm of the second base point `H`.
pub open spec fn pedersen_base_log() -> nat {
    hashed_point_log(pedersen_seed()) % group_order()
}

/// `public + blinder·H`, in discrete logarithms.
pub open spec fn blinded(public: nat, blinder: nat) -> nat {
    (public + (blinder * pedersen_base_log()) % group_order()) % group_order()
}

/// `commitment − blinder·H`, in discrete logarithms.
pub open spec fn unblinded(commitment: nat, blinder: nat) -> nat {
    sub_mod(commitment as int, ((blinder * pedersen_base_log()) % group_order()) as int)
}

/// The second base point `H`, hashed into the group from a fixed public seed, so
/// that nobody knows its discrete logarithm with respect to `G`.
pub fn pedersen_base() -> (r: Point)
    ensures
        r@ == pedersen_base_log(),
{
    let seed: [u8; 32] = [255u8; 32];
    assert(seed@ =~= pedersen_seed());
    Point::hash_from_bytes(&seed)
}

/// The commitment `public + blinder·H`.
pub fn blind(public: &Point, blinder: &Scalar) -> (r: Point)
    ensures
        r@ == blinded(public@, blinder@),
{
    let h = pedersen_base();
    public.add(&h.mul(blinder))
}

/// The public point `commitment − blinder·H` under a commitment.
pub fn unblind(commitment: &Point, blinder: &Scalar) -> (r: Point)
    ensures
        r@ == unblinded(commitment@, blinder@),
{
    let h = pedersen_base();
    commitment.sub(&h.mul(blinder))
}

/// Unblinding with the blinder a commitment was made with gives back the
/// committed point: `unblind(blind(P, r), r) == P` for every point `P` and every
/// blinder `r`.
pub proof fn lemma_unblind_blind(public: nat, blinder: nat)
    requires
        public < group_order(),
    ensures
        unblinded(blinded(public, blinder), blinder) == public,
{
    let m = group_order() as int;
    let q = (blinder * pedersen_base_log()) % group_order();
    lemma_small_mod(q, group_order());
    lemma_sub_mod_noop((public + q) as int, q as int, m);
    lemma_small_mod(public, group_order());
}

/// The unblinded points of a sequence of commitments.
pub open spec fn all_unblinded(commitments: Seq<int>, blinders: Seq<int>) -> Seq<int> {
    Seq::new(commitments.len(), |i: int| unblinded(commitments[i] as nat, blinders[i] as nat) as int)
}

/// The aggregate public key `Σ_i (commitments[i] − blinders[i]·H)`.
pub fn aggregate_public_key(commitments: &Vec<Point>, blinders: &Vec<Scalar>) -> (r: Point)
    requires
        commitments.len() == blinders.len(),
    ensures
        r@ == seq_sum(all_unblinded(point_logs(commitments@), scalar_values(blinders@)))
            % group_order() as int,
{
    let n = commitments.len();
    let mut points: Vec<Point> = Vec::new();
    let mut k: usize = 0;
    while k < n
        invariant
            k <= n,
            n == commitments.len(),
            n == blinders.len(),
            points.len() == k,
            forall|j: int| 0 <= j < k ==> #[trigger] points@[j]@
                == unblinded(commitments@[j]@, blinders@[j]@),
        decreases n - k,
    {
        points.push(unblind(&commitments[k], &blinders[k]));
        k += 1;
    }
    assert(point_logs(points@) =~= all_unblinded(point_logs(commitments@), scalar_values(blinders@)));
    sum_points(&points)
}

/// The aggregate public key does not depend on the blinders: when every
/// commitment is `publics[i] + blinders[i]·H`, the sum of the unblinded
/// commitments is the sum of the public points.
pub proof fn lemma_aggregate_key_is_sum_of_publics(
    publics: Seq<int>,
    blinders: Seq<int>,
    commitments: Seq<int>,
)
    requires
        publics.len() == blinders.len(),
        commitments.len() == publics.len(),
        forall|i: int| 0 <= i < publics.len() ==> 0 <= #[trigger] publics[i] < group_order(),
        forall|i: int| 0 <= i < blinders.len() ==> 0 <= #[trigger] blinders[i],
        forall|i: int|
            0 <= i < commitments.len() ==> #[trigger] commitments[i] == blinded(
                publics[i] as nat,
                blinders[i] as nat,
            ),
    ensures
        seq_sum(all_unblinded(commitments, blinders)) % group_order() as int == seq_sum(publics)
            % group_order() as int,
{
    assert forall|i: int| 0 <= i < publics.len() implies #[trigger] all_unblinded(
        commitments,
        blinders,
    )[i] == publics[i] by {
        lemma_unblind_blind(publics[i] as nat, blinders[i] as nat);
    }
    assert(all_unblinded(commitments, blinders) =~= publics);
}

} // verus!
