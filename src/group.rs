//! Scalars modulo the group order and points of the prime-order group.
//!
//! A scalar is modelled by its value in `[0, group_order())`; a point by its
//! discrete logarithm with respect to the standard base point, also taken
//! modulo the group order. Arithmetic is done by `curve25519_dalek`.
use curve25519_dalek::constants::ED25519_BASEPOINT_TABLE;
use curve25519_dalek::edwards::EdwardsPoint;
use curve25519_dalek::scalar::Scalar as DalekScalar;
use curve25519_dalek::traits::Identity;
use vstd::arithmetic::div_mod::{
    lemma_add_mod_noop, lemma_div_denominator, lemma_fundamental_div_mod, lemma_mod_twice,
};
use vstd::arithmetic::power::{lemma_pow_positive, pow};
use vstd::prelude::*;

verus! {

/// The order of the prime-order subgroup, `2^252 + 27742317777372353535851937790883648493`.
pub open spec fn group_order() -> nat {
    7237005577332262213973186563042994240857116359379907606001950938285454250989nat
}

/// The integer that a little-endian byte string denotes.
pub open spec fn le_value(b: Seq<u8>) -> nat
    decreases b.len(),
{
    if b.len() == 0 {
        0
    } else {
        b[0] as nat + 256 * le_value(b.drop_first())
    }
}

/// `a - b` reduced into `[0, group_order())`.
pub open spec fn sub_mod(a: int, b: int) -> nat {
    ((a - b) % (group_order() as int)) as nat
}

/// The multiplicative inverse of a nonzero residue modulo the (prime) group order.
pub open spec fn field_inv(a: nat) -> nat {
    choose|b: nat| b < group_order() && #[trigger] ((a * b) % group_order()) == 1
}

/// An element of the scalar field, held as 32 little-endian bytes.
#[derive(Clone, Copy)]
pub struct Scalar {
    pub(crate) bytes: [u8; 32],
}

impl View for Scalar {
    type V = nat;

    closed spec fn view(&self) -> nat {
        le_value(self.bytes@) % group_order()
    }
}

/// A little-endian string whose byte `i` is digit `i` of `v` in base 256
/// denotes `v`, when `v` has no more digits than the string has bytes.
proof fn lemma_le_value_digits(s: Seq<u8>, v: int)
    requires
        0 <= v < pow(256, s.len()),
        forall|i: int| 0 <= i < s.len() ==> #[trigger] s[i] as int == (v / pow(256, i as nat)) % 256,
    ensures
        le_value(s) == v,
    decreases s.len(),
{
    reveal(pow);
    if s.len() == 0 {
        assert(pow(256, 0) == 1);
    } else {
        let t = s.drop_first();
        let w = v / 256;
        assert(pow(256, s.len()) == 256 * pow(256, t.len()));
        assert forall|i: int| 0 <= i < t.len() implies #[trigger] t[i] as int == (w / pow(
            256,
            i as nat,
        )) % 256 by {
            assert(s[i + 1] == t[i]);
            lemma_pow_positive(256, i as nat);
            lemma_div_denominator(v, 256, pow(256, i as nat));
            assert(pow(256, (i + 1) as nat) == 256 * pow(256, i as nat));
        }
        lemma_div_upper(v, pow(256, t.len()));
        lemma_le_value_digits(t, w);
        assert(pow(256, 0) == 1);
        assert(s[0] as int == v % 256);
        lemma_fundamental_div_mod(v, 256);
    }
}

proof fn lemma_div_upper(v: int, p: int)
    requires
        0 <= v < 256 * p,
        p > 0,
    ensures
        v / 256 < p,
{
    lemma_fundamental_div_mod(v, 256);
    if v / 256 >= p {
        assert(256 * (v / 256) >= 256 * p) by (nonlinear_arith)
            requires
                v / 256 >= p,
        ;
    }
}

/// Relies on `Scalar::random` over `rand::thread_rng`: a uniformly random scalar.
#[verifier::external_body]
fn dalek_random() -> (r: Scalar) {
    Scalar { bytes: DalekScalar::random(&mut rand::thread_rng()).to_bytes() }
}

/// Relies on `Scalar::from_canonical_bytes`: accepted exactly when the bytes
/// denote an integer below the group order.
#[verifier::external_body]
fn dalek_from_canonical(bytes: [u8; 32]) -> (r: Option<Scalar>)
    ensures
        r is Some <==> le_value(bytes@) < group_order(),
        r is Some ==> le_value(r->0.bytes@) % group_order() == le_value(bytes@),
{
    DalekScalar::from_canonical_bytes(bytes).map(|s| Scalar { bytes: s.to_bytes() })
}

/// Relies on `Scalar::from_bytes_mod_order` and `Scalar::to_bytes`: the canonical
/// encoding of the value.
#[verifier::external_body]
fn dalek_canonical_bytes(s: &Scalar) -> (r: [u8; 32])
    ensures
        le_value(r@) == le_value(s.bytes@) % group_order(),
{
    DalekScalar::from_bytes_mod_order(s.bytes).to_bytes()
}

/// Relies on `Add` for `&Scalar`: addition modulo the group order.
#[verifier::external_body]
fn dalek_add(a: &Scalar, b: &Scalar) -> (r: Scalar)
    ensures
        le_value(r.bytes@) % group_order() == (a@ + b@) % group_order(),
{
    let s = &DalekScalar::from_bytes_mod_order(a.bytes) + &DalekScalar::from_bytes_mod_order(b.bytes);
    Scalar { bytes: s.to_bytes() }
}

/// Relies on `Sub` for `&Scalar`: subtraction modulo the group order.
#[verifier::external_body]
fn dalek_sub(a: &Scalar, b: &Scalar) -> (r: Scalar)
    ensures
        le_value(r.bytes@) % group_order() == sub_mod(a@ as int, b@ as int),
{
    let s = &DalekScalar::from_bytes_mod_order(a.bytes) - &DalekScalar::from_bytes_mod_order(b.bytes);
    Scalar { bytes: s.to_bytes() }
}

/// Relies on `Mul` for `&Scalar`: multiplication modulo the group order.
#[verifier::external_body]
fn dalek_mul(a: &Scalar, b: &Scalar) -> (r: Scalar)
    ensures
        le_value(r.bytes@) % group_order() == (a@ * b@) % group_order(),
{
    let s = &DalekScalar::from_bytes_mod_order(a.bytes) * &DalekScalar::from_bytes_mod_order(b.bytes);
    Scalar { bytes: s.to_bytes() }
}

/// Relies on `Scalar::invert`: the multiplicative inverse of a nonzero scalar,
/// which is unique because the group order is prime.
#[verifier::external_body]
fn dalek_invert(a: &Scalar) -> (r: Scalar)
    requires
        a@ != 0,
    ensures
        le_value(r.bytes@) % group_order() == field_inv(a@),
        (a@ * (le_value(r.bytes@) % group_order())) % group_order() == 1,
{
    Scalar { bytes: DalekScalar::from_bytes_mod_order(a.bytes).invert().to_bytes() }
}

/// Relies on `PartialEq` for `Scalar`: reduced scalars are equal exactly when their
/// canonical encodings are.
#[verifier::external_body]
fn dalek_scalar_eq(a: &Scalar, b: &Scalar) -> (r: bool)
    ensures
        r == (le_value(a.bytes@) % group_order() == le_value(b.bytes@) % group_order()),
{
    DalekScalar::from_bytes_mod_order(a.bytes) == DalekScalar::from_bytes_mod_order(b.bytes)
}

/// The values of a sequence of scalars.
pub open spec fn scalar_values(v: Seq<Scalar>) -> Seq<int> {
    v.map_values(|s: Scalar| s@ as int)
}

/// A scalar's value lies below the group order.
pub proof fn lemma_scalar_bound(s: Scalar)
    ensures
        s@ < group_order(),
{
}

impl Scalar {
    /// The scalar whose value is `n`.
    pub fn from_u64(n: u64) -> (r: Scalar)
        ensures
            r@ == n as nat,
    {
        let mut bytes: [u8; 32] = [0u8; 32];
        let mut v: u64 = n;
        let mut i: usize = 0;
        proof {
            reveal(pow);
            assert(pow(256, 0) == 1);
        }
        while i < 32
            invariant
                i <= 32,
                v as int == n as int / pow(256, i as nat),
                forall|j: int| 0 <= j < i ==> #[trigger] bytes@[j] as int == (n as int / pow(256, j as nat)) % 256,
            decreases 32 - i,
        {
            bytes[i] = (v % 256) as u8;
            proof {
                lemma_pow_positive(256, i as nat);
                lemma_div_denominator(n as int, pow(256, i as nat), 256);
                assert(pow(256, (i + 1) as nat) == pow(256, i as nat) * 256) by {
                    reveal(pow);
                    assert(pow(256, (i + 1) as nat) == 256 * pow(256, i as nat));
                }
            }
            v = v / 256;
            i += 1;
        }
        proof {
            assert(pow(256, 32) == 115792089237316195423570985008687907853269984665640564039457584007913129639936int) by {
                reveal_with_fuel(pow, 33);
            }
            lemma_le_value_digits(bytes@, n as int);
            vstd::arithmetic::div_mod::lemma_small_mod(n as nat, group_order());
        }
        Scalar { bytes }
    }

    /// The additive identity.
    pub fn zero() -> (r: Scalar)
        ensures
            r@ == 0,
    {
        Scalar::from_u64(0)
    }

    /// The multiplicative identity.
    pub fn one() -> (r: Scalar)
        ensures
            r@ == 1,
    {
        Scalar::from_u64(1)
    }

    /// A scalar drawn uniformly at random from a cryptographically secure source.
    pub fn random() -> (r: Scalar) {
        dalek_random()
    }

    /// The 256-bit little-endian integer of `bytes`, reduced modulo the group order.
    pub fn from_bytes_mod_order(bytes: [u8; 32]) -> (r: Scalar)
        ensures
            r@ == le_value(bytes@) % group_order(),
    {
        Scalar { bytes }
    }

    /// The scalar that `bytes` encode, or `None` when they encode an integer that is
    /// not below the group order: unreduced input is rejected, never coerced.
    pub fn from_canonical_bytes(bytes: [u8; 32]) -> (r: Option<Scalar>)
        ensures
            r is Some <==> le_value(bytes@) < group_order(),
            r is Some ==> r->0@ == le_value(bytes@),
    {
        dalek_from_canonical(bytes)
    }

    /// The canonical 32-byte little-endian encoding.
    pub fn to_bytes(&self) -> (r: [u8; 32])
        ensures
            le_value(r@) == self@,
    {
        dalek_canonical_bytes(self)
    }

    pub fn add(&self, other: &Scalar) -> (r: Scalar)
        ensures
            r@ == (self@ + other@) % group_order(),
    {
        dalek_add(self, other)
    }

    pub fn sub(&self, other: &Scalar) -> (r: Scalar)
        ensures
            r@ == sub_mod(self@ as int, other@ as int),
    {
        dalek_sub(self, other)
    }

    pub fn mul(&self, other: &Scalar) -> (r: Scalar)
        ensures
            r@ == (self@ * other@) % group_order(),
    {
        dalek_mul(self, other)
    }

    /// The inverse of a nonzero scalar; `None` for zero, which has none.
    pub fn invert(&self) -> (r: Option<Scalar>)
        ensures
            r is None <==> self@ == 0,
            r is Some ==> r->0@ == field_inv(self@) && (self@ * r->0@) % group_order() == 1,
    {
        if self.is_zero() {
            None
        } else {
            Some(dalek_invert(self))
        }
    }

    pub fn is_zero(&self) -> (r: bool)
        ensures
            r == (self@ == 0),
    {
        let z = Scalar::zero();
        dalek_scalar_eq(self, &z)
    }

    pub fn equals(&self, other: &Scalar) -> (r: bool)
        ensures
            r == (self@ == other@),
    {
        dalek_scalar_eq(self, other)
    }
}

/// A point's discrete logarithm with respect to the standard base point: the
/// model of an element of the prime-order group. The point wrappers below state
/// their results through it; those statements hold because every `Point` lies
/// in that subgroup.
pub uninterp spec fn discrete_log(p: EdwardsPoint) -> nat;

/// What `EdwardsPoint::hash_from_bytes::<Sha512>` returns on these bytes, as a
/// discrete logarithm.
pub uninterp spec fn hashed_point_log(b: Seq<u8>) -> nat;

#[verifier::external_type_specification]
#[verifier::external_body]
pub struct ExEdwardsPoint(EdwardsPoint);

/// An element of the prime-order group. Every value is built from the base
/// point or from `hash_from_bytes` (whose result is cofactor-cleared) by the
/// group operations below, so it never has a torsion component.
#[derive(Clone, Copy)]
pub struct Point {
    pub(crate) ep: EdwardsPoint,
}

impl View for Point {
    type V = nat;

    closed spec fn view(&self) -> nat {
        discrete_log(self.ep) % group_order()
    }
}

/// Relies on `&Scalar * &ED25519_BASEPOINT_TABLE`: fixed-base multiplication.
#[verifier::external_body]
fn dalek_base_mul(s: &Scalar) -> (r: Point)
    ensures
        discrete_log(r.ep) % group_order() == s@,
{
    Point { ep: &DalekScalar::from_bytes_mod_order(s.bytes) * &ED25519_BASEPOINT_TABLE }
}

/// Relies on `&Scalar * &EdwardsPoint`: variable-base multiplication.
#[verifier::external_body]
fn dalek_point_mul(s: &Scalar, p: &Point) -> (r: Point)
    ensures
        discrete_log(r.ep) % group_order() == (s@ * p@) % group_order(),
{
    Point { ep: &DalekScalar::from_bytes_mod_order(s.bytes) * &p.ep }
}

/// Relies on `Add` for `&EdwardsPoint`: the group operation.
#[verifier::external_body]
fn dalek_point_add(a: &Point, b: &Point) -> (r: Point)
    ensures
        discrete_log(r.ep) % group_order() == (a@ + b@) % group_order(),
{
    Point { ep: &a.ep + &b.ep }
}

/// Relies on `Sub` for `&EdwardsPoint`: adding the inverse element.
#[verifier::external_body]
fn dalek_point_sub(a: &Point, b: &Point) -> (r: Point)
    ensures
        discrete_log(r.ep) % group_order() == sub_mod(a@ as int, b@ as int),
{
    Point { ep: &a.ep - &b.ep }
}

/// Relies on `EdwardsPoint::identity`: the neutral element.
#[verifier::external_body]
fn dalek_identity() -> (r: Point)
    ensures
        discrete_log(r.ep) % group_order() == 0,
{
    Point { ep: EdwardsPoint::identity() }
}

/// Relies on `PartialEq` for `EdwardsPoint`: equality of group elements.
#[verifier::external_body]
fn dalek_point_eq(a: &Point, b: &Point) -> (r: bool)
    ensures
        r == (discrete_log(a.ep) % group_order() == discrete_log(b.ep) % group_order()),
{
    a.ep == b.ep
}

/// Relies on `EdwardsPoint::hash_from_bytes::<Sha512>`: hashing into the
/// prime-order group (Elligator map, then cofactor clearing); the result depends
/// on the bytes alone.
#[verifier::external_body]
fn dalek_hash_to_point(bytes: &[u8; 32]) -> (r: Point)
    ensures
        discrete_log(r.ep) == hashed_point_log(bytes@),
{
    Point { ep: EdwardsPoint::hash_from_bytes::<ed25519_dalek::Sha512>(bytes) }
}

/// A point's discrete logarithm lies below the group order.
pub proof fn lemma_point_bound(p: Point)
    ensures
        p@ < group_order(),
{
}

/// The discrete logarithms of a sequence of points.
pub open spec fn point_logs(v: Seq<Point>) -> Seq<int> {
    v.map_values(|p: Point| p@ as int)
}

impl Point {
    /// `s·G` for the standard base point `G`.
    pub fn base_mul(s: &Scalar) -> (r: Point)
        ensures
            r@ == s@,
    {
        dalek_base_mul(s)
    }

    /// `s·self`.
    pub fn mul(&self, s: &Scalar) -> (r: Point)
        ensures
            r@ == (s@ * self@) % group_order(),
    {
        dalek_point_mul(s, self)
    }

    pub fn add(&self, other: &Point) -> (r: Point)
        ensures
            r@ == (self@ + other@) % group_order(),
    {
        dalek_point_add(self, other)
    }

    pub fn sub(&self, other: &Point) -> (r: Point)
        ensures
            r@ == sub_mod(self@ as int, other@ as int),
    {
        dalek_point_sub(self, other)
    }

    pub fn identity() -> (r: Point)
        ensures
            r@ == 0,
    {
        dalek_identity()
    }

    pub fn equals(&self, other: &Point) -> (r: bool)
        ensures
            r == (self@ == other@),
    {
        dalek_point_eq(self, other)
    }

    /// The point that `bytes` hash to; its discrete logarithm is unknown to anyone.
    pub fn hash_from_bytes(bytes: &[u8; 32]) -> (r: Point)
        ensures
            r@ == hashed_point_log(bytes@) % group_order(),
    {
        dalek_hash_to_point(bytes)
    }
}

/// The sum of a sequence of integers.
pub open spec fn seq_sum(s: Seq<int>) -> int
    decreases s.len(),
{
    if s.len() == 0 {
        0
    } else {
        seq_sum(s.drop_last()) + s.last()
    }
}

proof fn lemma_sum_step_mod(s: Seq<int>, k: int, acc: int)
    requires
        0 <= k < s.len(),
        acc == seq_sum(s.take(k)) % group_order() as int,
    ensures
        (acc + s[k] % group_order() as int) % group_order() as int
            == seq_sum(s.take(k + 1)) % group_order() as int,
{
    let m = group_order() as int;
    assert(s.take(k + 1).drop_last() =~= s.take(k));
    lemma_add_mod_noop(seq_sum(s.take(k)), s[k], m);
    lemma_mod_twice(seq_sum(s.take(k)), m);
}

/// The sum of all the scalars.
pub fn sum_scalars(v: &Vec<Scalar>) -> (r: Scalar)
    ensures
        r@ == seq_sum(scalar_values(v@)) % group_order() as int,
{
    let ghost s = scalar_values(v@);
    let mut acc = Scalar::zero();
    let mut k: usize = 0;
    assert(s.take(0).len() == 0);
    while k < v.len()
        invariant
            k <= v.len(),
            s == scalar_values(v@),
            acc@ == seq_sum(s.take(k as int)) % group_order() as int,
        decreases v.len() - k,
    {
        proof {
            lemma_sum_step_mod(s, k as int, acc@ as int);
            vstd::arithmetic::div_mod::lemma_small_mod(v@[k as int]@, group_order());
        }
        acc = acc.add(&v[k]);
        k += 1;
    }
    assert(s.take(v.len() as int) =~= s);
    acc
}

/// The sum of all the points.
pub fn sum_points(v: &Vec<Point>) -> (r: Point)
    ensures
        r@ == seq_sum(point_logs(v@)) % group_order() as int,
{
    let ghost s = point_logs(v@);
    let mut acc = Point::identity();
    let mut k: usize = 0;
    assert(s.take(0).len() == 0);
    while k < v.len()
        invariant
            k <= v.len(),
            s == point_logs(v@),
            acc@ == seq_sum(s.take(k as int)) % group_order() as int,
        decreases v.len() - k,
    {
        proof {
            lemma_sum_step_mod(s, k as int, acc@ as int);
            vstd::arithmetic::div_mod::lemma_small_mod(v@[k as int]@, group_order());
        }
        acc = acc.add(&v[k]);
        k += 1;
    }
    assert(s.take(v.len() as int) =~= s);
    acc
}

} // verus!
