//! Exercises the field arithmetic, the point and hash wrappers, the
//! Paillier primitives, and the wire codec on concrete values.

use synedrion::bigint::nb_rem_sized;
use synedrion::bytes::{be_lt, bytes_eq, is_zero_bytes, pad_be};
use synedrion::codec::{encode_chunks, split_chunks};
use synedrion::drbg::Drbg;
use synedrion::group::{q_vec, scalar_sum, Scalar};
use synedrion::hashing::sha256;
use synedrion::paillier::{Ciphertext, PaillierPublicKey, PaillierSecretKey, Randomizer};
use synedrion::presigning::{Round1Bcast, Round1Direct, Round3Bcast};
use synedrion::signing::SigningBcast;
use synedrion::sigma::{EncProof, LogStarProof};

fn seed(b: u8) -> Drbg {
    Drbg::from_seed(&vec![b; 32])
}

fn scalar_of(v: u8) -> Scalar {
    let mut bytes = vec![0u8; 32];
    bytes[31] = v;
    Scalar::try_from_be_bytes(&bytes).unwrap()
}

#[test]
fn sha256_matches_known_vector() {
    // SHA-256("abc"), the standard test vector: the wrapper must not hand
    // its input back.
    let input = b"abc".to_vec();
    let digest = sha256(&input);
    let expected: Vec<u8> = vec![
        0xba, 0x78, 0x16, 0xbf, 0x8f, 0x01, 0xcf, 0xea, 0x41, 0x41, 0x40, 0xde, 0x5d, 0xae, 0x22,
        0x23, 0xb0, 0x03, 0x61, 0xa3, 0x96, 0x17, 0x7a, 0x9c, 0xb4, 0x10, 0xff, 0x61, 0xf2, 0x00,
        0x15, 0xad,
    ];
    assert_eq!(digest, expected);
}

#[test]
fn scalar_field_arithmetic() {
    let two = scalar_of(2);
    let three = scalar_of(3);
    let five = scalar_of(5);
    assert!(two.add(&three).equals(&five));
    assert!(three.sub(&two).equals(&scalar_of(1)));
    assert!(two.mul(&three).equals(&scalar_of(6)));
    assert!(three.pow(4).equals(&scalar_of(81)));

    // Wraparound at the group order.
    let q_minus_1 = Scalar::zero().sub(&scalar_of(1));
    assert!(q_minus_1.add(&two).equals(&scalar_of(1)));

    // Inversion.
    let inv2 = two.invert().unwrap();
    assert!(two.mul(&inv2).equals(&scalar_of(1)));

    // Normalization: a high scalar is replaced by its negation.
    assert!(scalar_of(7).normalize().equals(&scalar_of(7)));
    assert!(q_minus_1.normalize().equals(&scalar_of(1)));
}

#[test]
fn scalar_canonical_bytes_only() {
    // The group order itself and short strings are rejected; the largest
    // canonical value is accepted.
    let q = q_vec();
    assert!(Scalar::try_from_be_bytes(&q).is_none());
    assert!(Scalar::try_from_be_bytes(&vec![1u8; 31]).is_none());
    let mut qm1 = q.clone();
    qm1[31] -= 1;
    let s = Scalar::try_from_be_bytes(&qm1).unwrap();
    assert_eq!(s.to_be_bytes(), qm1);

    // Reduction folds the order to zero.
    let reduced = Scalar::from_reduced_bytes(&q);
    assert!(reduced.equals(&Scalar::zero()));
}

#[test]
fn point_operations_match_the_curve() {
    let one = scalar_of(1);
    let two = scalar_of(2);
    let g = one.mul_by_generator();

    // The generator's x-coordinate, a fixed curve constant.
    let gx: Vec<u8> = vec![
        0x79, 0xbe, 0x66, 0x7e, 0xf9, 0xdc, 0xbb, 0xac, 0x55, 0xa0, 0x62, 0x95, 0xce, 0x87, 0x0b,
        0x07, 0x02, 0x9b, 0xfc, 0xdb, 0x2d, 0xce, 0x28, 0xd9, 0x59, 0xf2, 0x81, 0x5b, 0x16, 0xf8,
        0x17, 0x98,
    ];
    let expected_x = Scalar::try_from_be_bytes(&gx).unwrap();
    assert!(g.x_coordinate().equals(&expected_x));

    // G + G == 2·G, through the addition and multiplication wrappers.
    let g2 = two.mul_by_generator();
    assert!(g.add(&g).equals(&g2));
    assert!(g.mul(&two).equals(&g2));

    // Encoding round trip.
    let bytes = g2.to_bytes();
    let decoded = synedrion::Point::try_from_compressed_bytes(&bytes).unwrap();
    assert!(decoded.equals(&g2));
}

#[test]
fn paillier_roundtrip_and_homomorphisms() {
    let mut rng = seed(17);
    // Small distinct primes keep the arithmetic easy to check by hand.
    let p: Vec<u8> = vec![0x0b];  // 11
    let q: Vec<u8> = vec![0x0d];  // 13
    let sk = PaillierSecretKey::from_primes(&p, &q).unwrap();
    let pk = sk.public_key();

    let m1: Vec<u8> = vec![42];
    let r1 = Randomizer::random(&mut rng, &pk);
    let c1 = Ciphertext::new_with_randomizer(&pk, &m1, &r1);
    let d1 = c1.decrypt(&sk);
    assert_eq!(nb_rem_sized(&d1, &vec![0xffu8, 0xff]), vec![0, 42]);

    // Homomorphic addition: Enc(42) * Enc(33) decrypts to 75.
    let m2: Vec<u8> = vec![33];
    let r2 = Randomizer::random(&mut rng, &pk);
    let c2 = Ciphertext::new_with_randomizer(&pk, &m2, &r2);
    let csum = c1.homomorphic_add(&pk, &c2);
    assert_eq!(nb_rem_sized(&csum.decrypt(&sk), &vec![0xffu8, 0xff]), vec![0, 75]);

    // Homomorphic scalar multiplication: Enc(42)^3 decrypts to 126.
    let cmul = c1.homomorphic_mul(&pk, &vec![3u8]);
    assert_eq!(nb_rem_sized(&cmul.decrypt(&sk), &vec![0xffu8, 0xff]), vec![0, 126]);
}

#[test]
fn chunk_codec_roundtrip() {
    let fields: Vec<Vec<u8>> = vec![vec![1, 2, 3], vec![], vec![9; 40]];
    let encoded = encode_chunks(&fields);
    let decoded = split_chunks(&encoded).unwrap();
    assert_eq!(decoded, fields);

    // A truncated buffer is rejected.
    let mut cut = encoded.clone();
    cut.pop();
    assert!(split_chunks(&cut).is_none());
}

#[test]
fn message_codecs_roundtrip() {
    let mut rng = seed(19);

    // Round-one broadcast.
    let m = Round1Bcast {
        k_ciphertext: Ciphertext::from_raw_bytes(&rng.fill(64)),
        g_ciphertext: Ciphertext::from_raw_bytes(&rng.fill(64)),
    };
    let bytes = m.to_bytes();
    let back = Round1Bcast::from_bytes(&bytes).unwrap();
    assert_eq!(back.k_ciphertext.to_bytes(), m.k_ciphertext.to_bytes());
    assert_eq!(back.g_ciphertext.to_bytes(), m.g_ciphertext.to_bytes());

    // Round-one direct message.
    let pk = PaillierPublicKey::from_n_bytes(&vec![0x02, 0x11]).unwrap();
    let sr = rng.fill(32);
    let kct = Ciphertext::from_raw_bytes(&vec![5, 5]);
    let d = Round1Direct(EncProof::random(&pk, &kct, &sr, 0));
    let bytes = d.to_bytes();
    let back = Round1Direct::from_bytes(&bytes).unwrap();
    assert_eq!(back.0.pk.n_bytes(), pk.n_bytes());
    assert_eq!(back.0.binding, d.0.binding);

    // Round-three broadcast.
    let delta = Scalar::from_reduced_bytes(&rng.fill(32));
    let big_delta = delta.mul_by_generator();
    let m3 = Round3Bcast {
        delta: delta.dup(),
        big_delta: big_delta.dup(),
        psi_hat_pprime: LogStarProof::random(&pk, &kct, &big_delta, &big_delta, &sr, 0),
    };
    let bytes = m3.to_bytes();
    let back = Round3Bcast::from_bytes(&bytes).unwrap();
    assert!(back.delta.equals(&delta));
    assert!(back.big_delta.equals(&big_delta));

    // Signing broadcast.
    let sb = SigningBcast { sigma: delta.dup() };
    let bytes = sb.to_bytes();
    let back = SigningBcast::from_bytes(&bytes).unwrap();
    assert!(back.sigma.equals(&delta));

    // A corrupted length field is rejected.
    let mut cut = bytes.clone();
    cut[3] = 0xff;
    assert!(SigningBcast::from_bytes(&cut).is_none());
}

#[test]
fn byte_string_helpers() {
    let a: Vec<u8> = vec![0, 1, 2];
    let b: Vec<u8> = vec![1, 2];
    assert!(bytes_eq(&a, &a.clone()));
    assert!(!bytes_eq(&a, &b));
    assert_eq!(pad_be(&b, 4), vec![0, 0, 1, 2]);
    assert!(be_lt(&vec![0, 9], &vec![1, 0]));
    assert!(!be_lt(&vec![1, 0], &vec![0, 9]));
    assert!(is_zero_bytes(&vec![0, 0, 0]));
    assert!(!is_zero_bytes(&vec![0, 1, 0]));
}

#[test]
fn os_entropy_has_the_right_shape() {
    // Two operating-system seeds of the documented length; with a
    // working system source they differ.
    let a = synedrion::drbg::os_seed().unwrap();
    let b = synedrion::drbg::os_seed().unwrap();
    assert_eq!(a.len(), 32);
    assert_eq!(b.len(), 32);
    assert_ne!(a, b);
}

#[test]
fn drbg_is_deterministic_per_seed() {
    let mut a = seed(1);
    let mut b = seed(1);
    let mut c = seed(2);
    let xa = a.fill(48);
    let xb = b.fill(48);
    let xc = c.fill(48);
    assert_eq!(xa, xb);
    assert_ne!(xa, xc);
}

#[test]
fn zero_sum_scalars_sum_to_zero() {
    let mut rng = seed(23);
    let scalars = synedrion::group::zero_sum_scalars(&mut rng, 5);
    assert_eq!(scalars.len(), 5);
    let total = scalar_sum(&scalars);
    assert!(total.equals(&Scalar::zero()));
}
