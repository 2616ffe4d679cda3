//! Key pairs: a secret scalar derived from secure randomness and its public point.
use crate::group::{group_order, le_value, Point, Scalar};
use vstd::arithmetic::div_mod::lemma_fundamental_div_mod;
use vstd::arithmetic::power::pow;
use digest::Digest;
use rand::RngCore;
use vstd::prelude::*;

verus! {

/// What SHA-512 returns on these bytes.
pub uninterp spec fn sha512_of(b: Seq<u8>) -> Seq<u8>;

/// Relies on `Sha512::digest` (sha2, as re-exported by `ed25519_dalek`): the
/// 64-byte SHA-512 digest.
#[verifier::external_body]
fn sha512_digest(b: &[u8; 32]) -> (r: Vec<u8>)
    ensures
        r@ == sha512_of(b@),
        r@.len() == 64,
{
    ed25519_dalek::Sha512::digest(b).to_vec()
}

/// Relies on `RngCore::fill_bytes` of `rand::thread_rng`: 32 bytes from a
/// cryptographically secure generator. If the operating system's entropy source
/// fails when the generator is first seeded, the call panics, which ends key
/// generation.
#[verifier::external_body]
fn random_seed() -> (r: [u8; 32]) {
    let mut bytes = [0u8; 32];
    rand::thread_rng().fill_bytes(&mut bytes);
    bytes
}

/// The first half of a digest with the secret-scalar clamping applied: the low
/// three bits cleared, the top bit cleared and the second-highest bit set.
pub open spec fn clamped(h: Seq<u8>) -> Seq<u8> {
    h.take(32).update(0, h[0] & 248u8).update(31, (h[31] & 127u8) | 64u8)
}

/// The first byte of a little-endian string and the value of the rest.
proof fn lemma_le_top_byte(s: Seq<u8>)
    requires
        s.len() >= 1,
    ensures
        pow(256, (s.len() - 1) as nat) * s[s.len() - 1] <= le_value(s),
        le_value(s) < pow(256, (s.len() - 1) as nat) * (s[s.len() - 1] + 1),
    decreases s.len(),
{
    let n = s.len();
    reveal(pow);
    if n == 1 {
        assert(s.drop_first().len() == 0);
        assert(pow(256, 0) == 1);
        assert(le_value(s.drop_first()) == 0);
        assert(le_value(s) == s[0] as nat);
    } else {
        let t = s.drop_first();
        lemma_le_top_byte(t);
        assert(t[t.len() - 1] == s[n - 1]);
        let p = pow(256, (n - 2) as nat);
        assert(pow(256, (n - 1) as nat) == 256 * p);
        let top = s[n - 1] as int;
        let lt = le_value(t) as int;
        let b0 = s[0] as int;
        assert(le_value(s) == b0 + 256 * lt);
        assert(0 <= b0 < 256);
        assert(p * top <= lt && lt < p * (top + 1));
        assert(256 * p * top <= b0 + 256 * lt) by (nonlinear_arith)
            requires
                p * top <= lt,
                0 <= b0,
        ;
        assert(b0 + 256 * lt < 256 * p * (top + 1)) by (nonlinear_arith)
            requires
                lt < p * (top + 1),
                lt + 1 <= p * (top + 1),
                b0 < 256,
        ;
        assert(pow(256, (n - 1) as nat) * (top + 1) == 256 * p * (top + 1));
        assert(pow(256, (n - 1) as nat) * top == 256 * p * top);
    }
}

/// A clamped secret is a multiple of 8 in `[2^254, 2^255)`, so it is never a
/// multiple of the group order.
proof fn lemma_clamped_nonzero(h: Seq<u8>)
    requires
        h.len() == 64,
    ensures
        le_value(clamped(h)) % group_order() != 0,
{
    let c = clamped(h);
    let b0 = h[0];
    let b31 = h[31];
    assert((b0 & 248u8) % 8 == 0) by (bit_vector);
    assert(64 <= ((b31 & 127u8) | 64u8) < 128) by (bit_vector);
    assert(c.len() == 32);
    lemma_le_top_byte(c);
    let k = le_value(c) as int;
    assert(pow(256, 31) == 452312848583266388373324160190187140051835877600158453279131187530910662656int) by {
        reveal_with_fuel(pow, 32);
    }
    assert(k >= 64 * 452312848583266388373324160190187140051835877600158453279131187530910662656int);
    assert(k < 128 * 452312848583266388373324160190187140051835877600158453279131187530910662656int);
    assert(le_value(c) == c[0] as nat + 256 * le_value(c.drop_first()));
    assert(k % 8 == 0);
    let l = group_order() as int;
    if k % l == 0 {
        lemma_fundamental_div_mod(k, l);
        let m = k / l;
        assert(k == l * m);
        if m >= 8 {
            assert(l * m >= l * 8) by (nonlinear_arith)
                requires
                    m >= 8,
                    l > 0,
            ;
        }
        if m <= 0 {
            assert(l * m <= 0) by (nonlinear_arith)
                requires
                    m <= 0,
                    l > 0,
            ;
        }
        assert(1 <= m < 8);
        assert(m == 1 || m == 2 || m == 3 || m == 4 || m == 5 || m == 6 || m == 7);
    }
}

/// A party's key pair, with `public = secret·G`.
#[derive(Clone, Copy)]
pub struct KeyPair {
    pub secret: Scalar,
    pub public: Point,
}

impl KeyPair {
    pub open spec fn wf(&self) -> bool {
        self.public@ == self.secret@
    }
}

/// The key pair derived from a 32-byte random seed: the seed is hashed with
/// SHA-512, the first half of the digest is clamped and reduced into a secret
/// scalar, and the public point is that scalar times the base point.
pub fn key_pair_from_seed(seed: &[u8; 32]) -> (r: KeyPair)
    ensures
        r.wf(),
        r.secret@ == le_value(clamped(sha512_of(seed@))) % group_order(),
        sha512_of(seed@).len() == 64,
        r.secret@ != 0,
{
    let digest = sha512_digest(seed);
    let mut bytes: [u8; 32] = [0u8; 32];
    let mut i: usize = 0;
    while i < 32
        invariant
            i <= 32,
            digest@.len() == 64,
            forall|j: int| 0 <= j < i ==> #[trigger] bytes@[j] == digest@[j],
        decreases 32 - i,
    {
        bytes[i] = digest[i];
        i += 1;
    }
    bytes[0] = bytes[0] & 248u8;
    bytes[31] = (bytes[31] & 127u8) | 64u8;
    assert(bytes@ =~= clamped(digest@));
    proof {
        lemma_clamped_nonzero(digest@);
    }
    let secret = Scalar::from_bytes_mod_order(bytes);
    let public = Point::base_mul(&secret);
    KeyPair { secret, public }
}

/// A fresh key pair from secure randomness: the key pair of some 32-byte seed.
pub fn generate_key_pair() -> (r: KeyPair)
    ensures
        r.wf(),
        r.secret@ != 0,
        exists|seed: Seq<u8>|
            seed.len() == 32 && r.secret@ == le_value(#[trigger] clamped(sha512_of(seed)))
                % group_order(),
{
    let seed = random_seed();
    let r = key_pair_from_seed(&seed);
    assert(seed@.len() == 32 && r.secret@ == le_value(clamped(sha512_of(seed@))) % group_order());
    r
}

} // verus!
