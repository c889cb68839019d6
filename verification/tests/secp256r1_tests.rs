use p256::ecdsa::signature::hazmat::PrehashSigner;
use p256::ecdsa::SigningKey;
use p256::elliptic_curve::sec1::ToEncodedPoint;
use p256::elliptic_curve::PrimeField;
use p256::{ProjectivePoint, Scalar};

use secp256r1::point::{limbs_to_point, point_from_le_bytes, point_to_le_bytes};
use secp256r1::{
    decompress_pubkey, double_and_add_base, ecrecover, recover_from_hints, unconstrained_ecrecover,
    verify_signature, HintChannel, Secp256r1Operations, Signature,
};
use secp256r1::Secp256r1Error;

const MSG_HASH: [u8; 32] = [
    0x11, 0x22, 0x33, 0x44, 0x55, 0x66, 0x77, 0x88, 0x99, 0xaa, 0xbb, 0xcc, 0xdd, 0xee, 0xff,
    0x10, 0x20, 0x30, 0x40, 0x50, 0x60, 0x70, 0x80, 0x90, 0xa0, 0xb0, 0xc0, 0xd0, 0xe0, 0xf0,
    0x01, 0x02,
];

const SK_BYTES: [u8; 32] = [
    0x6b, 0x17, 0x4f, 0x81, 0x2c, 0x3a, 0x55, 0x90, 0x01, 0x23, 0x45, 0x67, 0x89, 0xab, 0xcd,
    0xef, 0xfe, 0xdc, 0xba, 0x98, 0x76, 0x54, 0x32, 0x10, 0x13, 0x57, 0x9b, 0xdf, 0x24, 0x68,
    0xac, 0xe0,
];

fn coords(p: &ProjectivePoint) -> ([u8; 32], [u8; 32]) {
    let e = p.to_affine().to_encoded_point(false);
    ((*e.x().unwrap()).into(), (*e.y().unwrap()).into())
}

fn our_affine(p: &ProjectivePoint) -> secp256r1::AffinePoint {
    let (x, y) = coords(p);
    secp256r1::AffinePoint { x, y }
}

/// A fixed, valid, low-s signature together with its public key.
fn signed_fixture() -> ([u8; 65], [u8; 64], [u8; 32], [u8; 32]) {
    let sk = SigningKey::from_bytes(&SK_BYTES.into()).unwrap();
    let mut sig: p256::ecdsa::Signature = sk.sign_prehash(&MSG_HASH).unwrap();
    if let Some(low) = sig.normalize_s() {
        sig = low;
    }
    let vk = sk.verifying_key();
    let mut pk65 = [0u8; 65];
    pk65.copy_from_slice(vk.to_encoded_point(false).as_bytes());
    let sig64: [u8; 64] = sig.to_bytes().into();
    let r: [u8; 32] = sig64[..32].try_into().unwrap();
    let s: [u8; 32] = sig64[32..].try_into().unwrap();
    (pk65, sig64, r, s)
}

fn s_inverse_bytes(s: &[u8; 32]) -> [u8; 32] {
    let sc = Scalar::from_repr((*s).into()).unwrap();
    let inv = sc.invert().unwrap();
    inv.to_bytes().into()
}

#[test]
fn generator_times_three_vector() {
    // The fixed regression vector: the generator, packed little-endian,
    // multiplied by the scalar 3.
    let a: [u8; 64] = [
        150, 194, 152, 216, 69, 57, 161, 244, 160, 51, 235, 45, 129, 125, 3, 119, 242, 64, 164,
        99, 229, 230, 188, 248, 71, 66, 44, 225, 242, 209, 23, 107, 245, 81, 191, 55, 104, 64,
        182, 203, 206, 94, 49, 107, 87, 51, 206, 43, 22, 158, 15, 124, 74, 235, 231, 142, 155,
        127, 26, 254, 226, 66, 227, 79,
    ];
    let c: [u8; 64] = [
        108, 253, 231, 198, 27, 102, 65, 251, 133, 169, 173, 239, 33, 183, 198, 230, 101, 241,
        75, 29, 149, 239, 247, 200, 68, 10, 51, 166, 209, 228, 203, 94, 50, 80, 125, 162, 39,
        177, 121, 154, 61, 184, 79, 56, 54, 176, 42, 216, 236, 162, 100, 26, 206, 6, 75, 55,
        126, 255, 152, 73, 12, 100, 52, 135,
    ];
    let a_point = point_from_le_bytes(&a);
    let mut three = [0u8; 32];
    three[31] = 3;
    let zero = [0u8; 32];
    let res = double_and_add_base(&three, &a_point, &zero, &a_point).unwrap();
    assert_eq!(point_to_le_bytes(&res), c);
}

#[test]
fn generator_limbs_match_curve_generator() {
    let gl = Secp256r1Operations::generator();
    let gp = limbs_to_point(&gl);
    let (gx, gy) = coords(&ProjectivePoint::GENERATOR);
    assert_eq!(gp.x, gx);
    assert_eq!(gp.y, gy);
}

#[test]
fn limb_add_assign_and_double_match_curve() {
    let mut limbs = Secp256r1Operations::generator();
    assert!(Secp256r1Operations::double(&mut limbs));
    let doubled = limbs_to_point(&limbs);
    let (x2, y2) = coords(&(ProjectivePoint::GENERATOR * Scalar::from(2u64)));
    assert_eq!(doubled.x, x2);
    assert_eq!(doubled.y, y2);

    let g = Secp256r1Operations::generator();
    assert!(Secp256r1Operations::add_assign(&mut limbs, &g));
    let tripled = limbs_to_point(&limbs);
    let (x3, y3) = coords(&(ProjectivePoint::GENERATOR * Scalar::from(3u64)));
    assert_eq!(tripled.x, x3);
    assert_eq!(tripled.y, y3);
}

#[test]
fn combine_matches_direct_sum() {
    let a = [0x12u8; 32];
    let b = [0x34u8; 32];
    let g = ProjectivePoint::GENERATOR;
    let q = g * Scalar::from(7u64);
    let gp = our_affine(&g);
    let qp = our_affine(&q);
    let res = double_and_add_base(&a, &gp, &b, &qp).unwrap();
    let a_s = Scalar::from_repr(a.into()).unwrap();
    let b_s = Scalar::from_repr(b.into()).unwrap();
    let (ex, ey) = coords(&(g * a_s + q * b_s));
    assert_eq!(res.x, ex);
    assert_eq!(res.y, ey);
}

#[test]
fn combine_zero_scalar_edges() {
    let zero = [0u8; 32];
    let b = [0x34u8; 32];
    let g = ProjectivePoint::GENERATOR;
    let q = g * Scalar::from(7u64);
    let gp = our_affine(&g);
    let qp = our_affine(&q);

    let res = double_and_add_base(&zero, &gp, &b, &qp).unwrap();
    let b_s = Scalar::from_repr(b.into()).unwrap();
    let (ex, ey) = coords(&(q * b_s));
    assert_eq!(res.x, ex);
    assert_eq!(res.y, ey);

    let res2 = double_and_add_base(&b, &gp, &zero, &qp).unwrap();
    let (e2x, e2y) = coords(&(g * b_s));
    assert_eq!(res2.x, e2x);
    assert_eq!(res2.y, e2y);

    assert!(double_and_add_base(&zero, &gp, &zero, &qp).is_none());
}

#[test]
fn sign_then_verify() {
    let (pk65, sig64, r, s) = signed_fixture();
    let signature = Signature::from_slice(&sig64).unwrap();
    assert!(verify_signature(&pk65, &MSG_HASH, &signature, None));
    let inv = s_inverse_bytes(&s);
    assert!(verify_signature(&pk65, &MSG_HASH, &signature, Some(&inv)));

    // The high-s twin of a valid signature also verifies.
    let s_scalar = Scalar::from_repr(s.into()).unwrap();
    let high_s: [u8; 32] = (-s_scalar).to_bytes().into();
    let mut sig_high = [0u8; 64];
    sig_high[..32].copy_from_slice(&r);
    sig_high[32..].copy_from_slice(&high_s);
    let signature_high = Signature::from_slice(&sig_high).unwrap();
    assert!(verify_signature(&pk65, &MSG_HASH, &signature_high, None));
}

#[test]
fn verify_rejects_bit_flips() {
    let (pk65, sig64, _, _) = signed_fixture();
    // Flip one bit of r, of s, of the hash, and of each public-key
    // coordinate in turn; verification must fail each time.
    for &byte in &[5usize, 40] {
        let mut bad = sig64;
        bad[byte] ^= 0x10;
        match Signature::from_slice(&bad) {
            Ok(sig) => assert!(!verify_signature(&pk65, &MSG_HASH, &sig, None)),
            Err(e) => assert_eq!(e, Secp256r1Error::InvalidEncoding),
        }
    }
    let signature = Signature::from_slice(&sig64).unwrap();
    let mut bad_hash = MSG_HASH;
    bad_hash[17] ^= 0x04;
    assert!(!verify_signature(&pk65, &bad_hash, &signature, None));
    for &byte in &[10usize, 50] {
        let mut bad_pk = pk65;
        bad_pk[byte] ^= 0x20;
        assert!(!verify_signature(&bad_pk, &MSG_HASH, &signature, None));
    }
}

#[test]
fn verify_rejects_noncanonical_hash() {
    let (pk65, sig64, _, _) = signed_fixture();
    let signature = Signature::from_slice(&sig64).unwrap();
    let too_big = [0xffu8; 32];
    assert!(!verify_signature(&pk65, &too_big, &signature, None));
}

#[test]
fn signature_from_slice_rejects_out_of_range() {
    let mut zero_r = [0u8; 64];
    zero_r[63] = 1;
    assert_eq!(
        Signature::from_slice(&zero_r).unwrap_err(),
        Secp256r1Error::InvalidEncoding
    );
    let all_ff = [0xffu8; 64];
    assert_eq!(
        Signature::from_slice(&all_ff).unwrap_err(),
        Secp256r1Error::InvalidEncoding
    );
}

#[test]
fn decompress_round_trip_both_parities() {
    // Walk small multiples of the generator until both parities were seen.
    let mut seen_even = false;
    let mut seen_odd = false;
    let mut p = ProjectivePoint::GENERATOR;
    for _ in 0..8 {
        let e = p.to_affine().to_encoded_point(true);
        let mut compressed = [0u8; 33];
        compressed.copy_from_slice(e.as_bytes());
        let full = p.to_affine().to_encoded_point(false);
        let out = decompress_pubkey(&compressed).unwrap();
        assert_eq!(&out[..], full.as_bytes());
        if compressed[0] == 2 {
            seen_even = true;
        } else {
            seen_odd = true;
        }
        p += ProjectivePoint::GENERATOR;
    }
    assert!(seen_even && seen_odd);
}

#[test]
fn decompress_rejects_bad_parity_and_off_curve() {
    let mut compressed = [0u8; 33];
    compressed[0] = 5;
    assert_eq!(
        decompress_pubkey(&compressed).unwrap_err(),
        Secp256r1Error::InvalidEncoding
    );
    let mut off = [0xffu8; 33];
    off[0] = 2;
    assert_eq!(
        decompress_pubkey(&off).unwrap_err(),
        Secp256r1Error::InvalidEncoding
    );
}

#[test]
fn ecrecover_returns_signing_key() {
    let (pk65, sig64, _, _) = signed_fixture();
    let mut found = false;
    for recid in 0u8..2 {
        let mut sig65 = [0u8; 65];
        sig65[..64].copy_from_slice(&sig64);
        sig65[64] = recid;
        if let Ok(recovered) = ecrecover(&sig65, &MSG_HASH) {
            if recovered == pk65 {
                found = true;
            }
        }
    }
    assert!(found);
}

#[test]
fn unconstrained_ecrecover_yields_candidate_and_inverse() {
    let (_, sig64, _, s) = signed_fixture();
    let sk = SigningKey::from_bytes(&SK_BYTES.into()).unwrap();
    let compressed_pk = sk.verifying_key().to_encoded_point(true);
    let mut found = false;
    for recid in 0u8..2 {
        let mut sig65 = [0u8; 65];
        sig65[..64].copy_from_slice(&sig64);
        sig65[64] = recid;
        let (key, inv) = unconstrained_ecrecover(&sig65, &MSG_HASH).unwrap();
        assert_eq!(inv, s_inverse_bytes(&s));
        if key == <[u8; 33]>::try_from(compressed_pk.as_bytes()).unwrap() {
            found = true;
        }
    }
    assert!(found);
}

#[test]
fn ecrecover_accepts_high_s() {
    // ECDSA accepts (r, n - s) exactly when it accepts (r, s), and the
    // checked phase normalizes to low-s before verifying, so recovery
    // succeeds for either s-normalization.
    let (pk65, _, r, s) = signed_fixture();
    let s_scalar = Scalar::from_repr(s.into()).unwrap();
    let high_s: [u8; 32] = (-s_scalar).to_bytes().into();
    let mut found = false;
    for recid in 0u8..2 {
        let mut sig65 = [0u8; 65];
        sig65[..32].copy_from_slice(&r);
        sig65[32..64].copy_from_slice(&high_s);
        sig65[64] = recid;
        if let Ok(recovered) = ecrecover(&sig65, &MSG_HASH) {
            if recovered == pk65 {
                found = true;
            }
        }
    }
    assert!(found);
}

#[test]
fn wrong_hint_key_fails_verification() {
    let (_, sig64, _, s) = signed_fixture();
    let mut sig65 = [0u8; 65];
    sig65[..64].copy_from_slice(&sig64);
    sig65[64] = 0;
    // A plausible hint: a valid compressed point that is not the signer's
    // key, together with the correct inverse of s.
    let wrong = (ProjectivePoint::GENERATOR * Scalar::from(9u64))
        .to_affine()
        .to_encoded_point(true);
    let mut channel = HintChannel::new();
    channel.write(wrong.as_bytes().to_vec());
    channel.write(s_inverse_bytes(&s).to_vec());
    assert_eq!(
        recover_from_hints(&sig65, &MSG_HASH, &mut channel).unwrap_err(),
        Secp256r1Error::RecoveryVerificationFailed
    );
}

#[test]
fn wrong_hint_inverse_is_a_consistency_violation() {
    let (_, sig64, _, _) = signed_fixture();
    let mut sig65 = [0u8; 65];
    sig65[..64].copy_from_slice(&sig64);
    sig65[64] = 0;
    let sk = SigningKey::from_bytes(&SK_BYTES.into()).unwrap();
    let right_key = sk.verifying_key().to_encoded_point(true);
    let mut channel = HintChannel::new();
    channel.write(right_key.as_bytes().to_vec());
    channel.write(vec![7u8; 32]);
    assert_eq!(
        recover_from_hints(&sig65, &MSG_HASH, &mut channel).unwrap_err(),
        Secp256r1Error::ConsistencyViolation
    );
}

#[test]
fn missing_or_missized_hints_are_protocol_violations() {
    let (_, sig64, _, _) = signed_fixture();
    let mut sig65 = [0u8; 65];
    sig65[..64].copy_from_slice(&sig64);
    sig65[64] = 0;
    let mut empty = HintChannel::new();
    assert_eq!(
        recover_from_hints(&sig65, &MSG_HASH, &mut empty).unwrap_err(),
        Secp256r1Error::RecoveryProtocolViolation
    );
    let mut short = HintChannel::new();
    short.write(vec![2u8; 10]);
    short.write(vec![1u8; 32]);
    assert_eq!(
        recover_from_hints(&sig65, &MSG_HASH, &mut short).unwrap_err(),
        Secp256r1Error::RecoveryProtocolViolation
    );
}
