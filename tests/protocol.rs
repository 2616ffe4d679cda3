use curve25519_dalek::scalar::Scalar as DalekScalar;
use digest::Digest;
use threshold_dkg::dkg::{
    aggregate_shares, deal_shares, find_complaints, party_indices, validate_parameters,
    ParameterError,
};
use threshold_dkg::feldman::{verification_vector, verify_share};
use threshold_dkg::group::{sum_points, Point, Scalar};
use threshold_dkg::keygen::{generate_key_pair, key_pair_from_seed};
use threshold_dkg::pedersen::{aggregate_public_key, blind, pedersen_base, unblind};
use threshold_dkg::polynomial::Polynomial;
use threshold_dkg::shamir::{lagrange_coeffs_at_zero, shamir_reconstruct, ReconstructionError};

fn s(n: u64) -> Scalar {
    Scalar::from_u64(n)
}

fn same(a: &Scalar, b: &Scalar) -> bool {
    a.equals(b)
}

fn sample_polynomial() -> Polynomial {
    Polynomial { coeffs: vec![s(1234), s(7), s(13)] }
}

#[test]
fn generated_key_pair_has_public_equal_to_secret_times_base() {
    for _ in 0..4 {
        let kp = generate_key_pair();
        assert!(Point::base_mul(&kp.secret).equals(&kp.public));
    }
}

#[test]
fn key_pair_from_seed_follows_hash_and_clamping() {
    let seed = [7u8; 32];
    let kp = key_pair_from_seed(&seed);
    let digest = ed25519_dalek::Sha512::digest(&seed);
    let mut bytes = [0u8; 32];
    bytes.copy_from_slice(&digest[..32]);
    bytes[0] &= 248;
    bytes[31] &= 127;
    bytes[31] |= 64;
    let expected = DalekScalar::from_bytes_mod_order(bytes);
    assert_eq!(kp.secret.to_bytes(), expected.to_bytes());
    assert_ne!(kp.secret.to_bytes(), DalekScalar::from_bytes_mod_order(seed).to_bytes());
    assert!(Point::base_mul(&kp.secret).equals(&kp.public));
}

#[test]
fn key_pair_from_seed_is_deterministic_and_seed_dependent() {
    let a = key_pair_from_seed(&[1u8; 32]);
    let b = key_pair_from_seed(&[1u8; 32]);
    let c = key_pair_from_seed(&[2u8; 32]);
    assert!(same(&a.secret, &b.secret));
    assert!(a.public.equals(&b.public));
    assert!(!same(&a.secret, &c.secret));
    assert!(!a.public.equals(&c.public));
}

#[test]
fn unblind_inverts_blind() {
    for _ in 0..4 {
        let p = Point::base_mul(&Scalar::random());
        let r = Scalar::random();
        let c = blind(&p, &r);
        assert!(!c.equals(&p));
        assert!(unblind(&c, &r).equals(&p));
    }
}

#[test]
fn blind_adds_blinder_times_second_base() {
    let p = Point::base_mul(&s(5));
    let c = blind(&p, &s(3));
    let h = pedersen_base();
    let expected = p.add(&h.add(&h).add(&h));
    assert!(c.equals(&expected));
    assert!(!h.equals(&Point::identity()));
    assert!(h.equals(&Point::hash_from_bytes(&[255u8; 32])));
}

#[test]
fn aggregate_public_key_is_sum_of_public_points() {
    let mut publics = Vec::new();
    let mut blinders = Vec::new();
    let mut commitments = Vec::new();
    for _ in 0..5 {
        let kp = generate_key_pair();
        let r = Scalar::random();
        commitments.push(blind(&kp.public, &r));
        publics.push(kp.public);
        blinders.push(r);
    }
    let aggregate = aggregate_public_key(&commitments, &blinders);
    assert!(aggregate.equals(&sum_points(&publics)));
    assert!(!sum_points(&commitments).equals(&aggregate));
}

#[test]
fn evaluate_gives_exact_values() {
    let poly = sample_polynomial();
    assert!(same(&poly.evaluate(&s(0)), &s(1234)));
    assert!(same(&poly.evaluate(&s(1)), &s(1254)));
    assert!(same(&poly.evaluate(&s(2)), &s(1300)));
    assert!(same(&poly.evaluate(&s(3)), &s(1372)));
    assert!(same(&poly.evaluate(&s(10)), &s(2604)));
}

#[test]
fn evaluate_empty_polynomial_is_zero() {
    let poly = Polynomial { coeffs: Vec::new() };
    assert!(poly.evaluate(&s(9)).is_zero());
}

#[test]
fn random_polynomial_keeps_secret_as_constant_term() {
    let secret = Scalar::random();
    let poly = Polynomial::random(&secret, 2);
    assert_eq!(poly.coeffs.len(), 3);
    assert!(same(&poly.coeffs[0], &secret));
    assert!(same(&poly.evaluate(&Scalar::zero()), &secret));
}

#[test]
fn feldman_accepts_honest_shares_and_rejects_tampered_ones() {
    let poly = Polynomial::random(&Scalar::random(), 2);
    let vv = verification_vector(&poly);
    assert_eq!(vv.len(), 3);
    for x in 1..=5u64 {
        let share = poly.evaluate(&s(x));
        assert!(verify_share(&vv, &share, &s(x)));
        assert!(!verify_share(&vv, &share.add(&s(1)), &s(x)));
    }
}

#[test]
fn feldman_checks_the_top_degree_coefficient() {
    let poly = sample_polynomial();
    let mut vv = verification_vector(&poly);
    assert!(vv[2].equals(&Point::base_mul(&s(13))));
    vv[2] = Point::identity();
    assert!(!verify_share(&vv, &poly.evaluate(&s(2)), &s(2)));
}

#[test]
fn lagrange_coefficients_at_one_two_three() {
    let cs = lagrange_coeffs_at_zero(&vec![s(1), s(2), s(3)]).unwrap();
    assert_eq!(cs.len(), 3);
    assert!(same(&cs[0], &s(3)));
    assert!(same(&cs[1], &Scalar::zero().sub(&s(3))));
    assert!(same(&cs[2], &s(1)));
}

#[test]
fn reconstruct_small_scenario_from_two_subsets() {
    let poly = sample_polynomial();
    let xs: Vec<Scalar> = (1..=5u64).map(s).collect();
    let ys: Vec<Scalar> = xs.iter().map(|x| poly.evaluate(x)).collect();
    assert!(same(&ys[0], &s(1254)));
    assert!(same(&ys[1], &s(1300)));
    assert!(same(&ys[2], &s(1372)));
    let first = shamir_reconstruct(&xs[0..3].to_vec(), &ys[0..3].to_vec(), 3).unwrap();
    assert!(same(&first, &s(1234)));
    let other = shamir_reconstruct(&vec![xs[1], xs[3], xs[4]], &vec![ys[1], ys[3], ys[4]], 3)
        .unwrap();
    assert!(same(&other, &s(1234)));
    let four = shamir_reconstruct(&xs[1..5].to_vec(), &ys[1..5].to_vec(), 3).unwrap();
    assert!(same(&four, &s(1234)));
}

#[test]
fn reconstruct_random_secret_from_every_triple() {
    let secret = Scalar::random();
    let poly = Polynomial::random(&secret, 2);
    let xs: Vec<Scalar> = (1..=5u64).map(s).collect();
    let ys: Vec<Scalar> = xs.iter().map(|x| poly.evaluate(x)).collect();
    for a in 0..5 {
        for b in (a + 1)..5 {
            for c in (b + 1)..5 {
                let r = shamir_reconstruct(&vec![xs[a], xs[b], xs[c]], &vec![ys[a], ys[b], ys[c]], 3)
                    .unwrap();
                assert!(same(&r, &secret));
            }
        }
    }
}

#[test]
fn reconstruct_refuses_duplicate_indices() {
    let xs = vec![s(1), s(1), s(2)];
    let ys = vec![s(10), s(10), s(20)];
    assert_eq!(shamir_reconstruct(&xs, &ys, 3).err(), Some(ReconstructionError::DuplicateIndex));
    assert_eq!(lagrange_coeffs_at_zero(&xs).err(), Some(ReconstructionError::DuplicateIndex));
}

#[test]
fn reconstruct_refuses_too_few_or_mismatched_shares() {
    let xs = vec![s(1), s(2)];
    let ys = vec![s(10), s(20)];
    assert_eq!(shamir_reconstruct(&xs, &ys, 3).err(), Some(ReconstructionError::NotEnoughShares));
    assert_eq!(
        shamir_reconstruct(&xs, &vec![s(10)], 2).err(),
        Some(ReconstructionError::MismatchedLengths)
    );
}

#[test]
fn scalar_arithmetic_and_encoding() {
    assert!(s(3).invert().is_some());
    assert!(Scalar::zero().invert().is_none());
    let inv = s(2).invert().unwrap();
    assert!(same(&inv.mul(&s(2)), &Scalar::one()));
    assert!(same(&s(2).sub(&s(5)).add(&s(3)), &Scalar::zero()));
    assert!(same(&s(6).mul(&s(7)), &s(42)));
    let mut one = [0u8; 32];
    one[0] = 1;
    assert_eq!(s(1).to_bytes(), one);
    assert!(same(&Scalar::from_canonical_bytes(one).unwrap(), &s(1)));
    assert!(Scalar::from_canonical_bytes([255u8; 32]).is_none());
    assert!(same(&Scalar::from_bytes_mod_order(one), &s(1)));
}

#[test]
fn parameters_are_validated() {
    assert_eq!(validate_parameters(5, 3), Ok(()));
    assert_eq!(validate_parameters(5, 0), Err(ParameterError::ZeroThreshold));
    assert_eq!(validate_parameters(2, 3), Err(ParameterError::ThresholdAboveParties));
    let xs = party_indices(3);
    assert_eq!(xs.len(), 3);
    assert!(same(&xs[2], &s(3)));
}

#[test]
fn aggregate_shares_sums_received_shares() {
    assert!(same(&aggregate_shares(&vec![s(1), s(2), s(39)]), &s(42)));
    assert!(aggregate_shares(&Vec::new()).is_zero());
}

#[test]
fn find_complaints_reports_only_the_tampered_share() {
    let n = 4;
    let xs = party_indices(n);
    let polys: Vec<Polynomial> = (0..n).map(|_| Polynomial::random(&Scalar::random(), 1)).collect();
    let vvs: Vec<Vec<Point>> = polys.iter().map(verification_vector).collect();
    let mut shares: Vec<Vec<Scalar>> = polys.iter().map(|p| deal_shares(p, &xs)).collect();
    assert!(find_complaints(&vvs, &shares, &xs).is_empty());
    shares[2][1] = shares[2][1].add(&Scalar::one());
    let complaints = find_complaints(&vvs, &shares, &xs);
    assert_eq!(complaints.len(), 1);
    assert_eq!(complaints[0].sender, 2);
    assert_eq!(complaints[0].receiver, 1);
    assert!(same(&complaints[0].share, &shares[2][1]));
}

#[test]
fn end_to_end_five_parties_threshold_three() {
    let (n, t) = (5usize, 3usize);
    assert_eq!(validate_parameters(n, t), Ok(()));
    let xs = party_indices(n);
    let key_pairs: Vec<_> = (0..n).map(|_| generate_key_pair()).collect();
    let blinders: Vec<Scalar> = (0..n).map(|_| Scalar::random()).collect();
    let commitments: Vec<Point> =
        (0..n).map(|i| blind(&key_pairs[i].public, &blinders[i])).collect();
    let public_key = aggregate_public_key(&commitments, &blinders);
    let polys: Vec<Polynomial> =
        key_pairs.iter().map(|kp| Polynomial::random(&kp.secret, t - 1)).collect();
    let vvs: Vec<Vec<Point>> = polys.iter().map(verification_vector).collect();
    for i in 0..n {
        assert!(vvs[i][0].equals(&key_pairs[i].public));
    }
    let dealt: Vec<Vec<Scalar>> = polys.iter().map(|p| deal_shares(p, &xs)).collect();
    for i in 0..n {
        for j in 0..n {
            assert!(verify_share(&vvs[i], &dealt[i][j], &xs[j]));
        }
    }
    assert!(find_complaints(&vvs, &dealt, &xs).is_empty());
    let finals: Vec<Scalar> = (0..n)
        .map(|j| aggregate_shares(&(0..n).map(|i| dealt[i][j]).collect()))
        .collect();
    let secret = shamir_reconstruct(&xs[0..t].to_vec(), &finals[0..t].to_vec(), t).unwrap();
    assert!(Point::base_mul(&secret).equals(&public_key));
    let other = shamir_reconstruct(&vec![xs[0], xs[2], xs[4]], &vec![finals[0], finals[2], finals[4]], t)
        .unwrap();
    assert!(same(&other, &secret));
}

#[test]
fn generated_secret_is_never_zero() {
    for _ in 0..4 {
        let kp = generate_key_pair();
        assert!(!kp.secret.is_zero());
        assert!(!kp.public.equals(&Point::identity()));
    }
    assert!(!key_pair_from_seed(&[0u8; 32]).secret.is_zero());
}

#[test]
fn from_u64_writes_little_endian_bytes() {
    for n in [0u64, 1, 255, 256, 1234, 0x0102_0304_0506_0708, u64::MAX] {
        assert_eq!(s(n).to_bytes(), DalekScalar::from(n).to_bytes());
    }
    let mut expected = [0u8; 32];
    expected[..8].copy_from_slice(&0x0102_0304_0506_0708u64.to_le_bytes());
    assert_eq!(s(0x0102_0304_0506_0708).to_bytes(), expected);
}

#[test]
fn complaints_name_each_failing_pair_once() {
    let n = 3;
    let xs = party_indices(n);
    let polys: Vec<Polynomial> = (0..n).map(|_| Polynomial::random(&Scalar::random(), 1)).collect();
    let vvs: Vec<Vec<Point>> = polys.iter().map(verification_vector).collect();
    let mut shares: Vec<Vec<Scalar>> = polys.iter().map(|p| deal_shares(p, &xs)).collect();
    shares[0][1] = shares[0][1].add(&Scalar::one());
    shares[0][2] = shares[0][2].add(&Scalar::one());
    shares[1][1] = shares[1][1].add(&Scalar::one());
    let complaints = find_complaints(&vvs, &shares, &xs);
    let pairs: Vec<(usize, usize)> = complaints.iter().map(|c| (c.sender, c.receiver)).collect();
    assert_eq!(pairs, vec![(0, 1), (0, 2)]);
}
