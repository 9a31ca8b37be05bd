//! Drives the presigning and key-generation rounds directly, with typed
//! messages, and checks the algebra of what comes out.

use synedrion::collections::{HoleVecAccum, PartyIdx};
use synedrion::drbg::Drbg;
use synedrion::group::{scalar_sum, Point, Scalar};
use synedrion::keygen;
use synedrion::make_key_shares;
use synedrion::presigning::{PresigningOutcome, Round1Part1};
use synedrion::PresigningData;

fn seed(b: u8) -> Drbg {
    Drbg::from_seed(&vec![b; 32])
}

#[test]
fn execute_presigning() {
    let mut rng = seed(9);
    let shared_randomness = rng.fill(32);

    let num_parties: usize = 3;
    let parties: Vec<u32> = vec![0, 1, 2];
    let key_shares = make_key_shares(&mut rng, &parties).unwrap();

    // Round 1 part 1: broadcast the ciphertexts.
    let mut r1: Vec<Round1Part1> = Vec::new();
    for idx in 0..num_parties {
        r1.push(Round1Part1::new(
            &mut rng,
            shared_randomness.clone(),
            num_parties,
            idx,
            key_shares[idx].vectorized(),
        ));
    }
    let mut accs: Vec<HoleVecAccum<synedrion::presigning::Round1Bcast>> = Vec::new();
    for i in 0..num_parties {
        accs.push(HoleVecAccum::new(num_parties, i));
    }
    for i in 0..num_parties {
        for j in 0..num_parties {
            if i != j {
                let msg = r1[i].to_send();
                let payload = r1[j]
                    .verify_received(PartyIdx::from_usize(i), msg)
                    .unwrap();
                accs[j].insert(i, payload);
            }
        }
    }
    let mut r1b = Vec::new();
    for (round, acc) in r1.into_iter().zip(accs.into_iter()) {
        r1b.push(round.finalize(acc.finalize()));
    }

    // Round 1 part 2: range proofs.
    let mut accs2: Vec<HoleVecAccum<bool>> = Vec::new();
    for i in 0..num_parties {
        accs2.push(HoleVecAccum::new(num_parties, i));
    }
    for i in 0..num_parties {
        let msgs = r1b[i].to_send();
        for (to, m) in msgs {
            let payload = r1b[to.as_usize()]
                .verify_received(PartyIdx::from_usize(i), m)
                .unwrap();
            accs2[to.as_usize()].insert(i, payload);
        }
    }
    let mut r2 = Vec::new();
    for (round, acc) in r1b.into_iter().zip(accs2.into_iter()) {
        acc.finalize();
        r2.push(round.finalize(&mut rng));
    }

    // Round 2: masked products.
    let mut accs3: Vec<HoleVecAccum<synedrion::presigning::Round2Payload>> = Vec::new();
    for i in 0..num_parties {
        accs3.push(HoleVecAccum::new(num_parties, i));
    }
    for i in 0..num_parties {
        let msgs = r2[i].to_send();
        for (to, m) in msgs {
            let payload = r2[to.as_usize()]
                .verify_received(PartyIdx::from_usize(i), m)
                .unwrap();
            accs3[to.as_usize()].insert(i, payload);
        }
    }
    let mut r3 = Vec::new();
    for (round, acc) in r2.into_iter().zip(accs3.into_iter()) {
        r3.push(round.finalize(acc.finalize()));
    }

    // Round 3: delta reconciliation.
    let mut accs4: Vec<HoleVecAccum<synedrion::presigning::Round3Payload>> = Vec::new();
    for i in 0..num_parties {
        accs4.push(HoleVecAccum::new(num_parties, i));
    }
    for i in 0..num_parties {
        let msgs = r3[i].to_send();
        for (to, m) in msgs {
            let payload = r3[to.as_usize()]
                .verify_received(PartyIdx::from_usize(i), m)
                .unwrap();
            accs4[to.as_usize()].insert(i, payload);
        }
    }
    let mut presigning_datas: Vec<PresigningData> = Vec::new();
    for (round, acc) in r3.into_iter().zip(accs4.into_iter()) {
        match round.finalize(&mut rng, acc.finalize()) {
            PresigningOutcome::Success(pd) => presigning_datas.push(pd),
            PresigningOutcome::Failure(_) => panic!("presigning failed"),
        }
    }

    // Check that each node ends up with the same nonce.
    assert!(presigning_datas[0].nonce.equals(&presigning_datas[1].nonce));
    assert!(presigning_datas[0].nonce.equals(&presigning_datas[2].nonce));

    // Check that the additive shares were constructed in a consistent way.
    let mut k_shares: Vec<Scalar> = Vec::new();
    let mut chi_shares: Vec<Scalar> = Vec::new();
    for pd in presigning_datas.iter() {
        k_shares.push(pd.ephemeral_scalar_share.dup());
        chi_shares.push(pd.product_share.dup());
    }
    let k = scalar_sum(&k_shares);
    let k_times_x = scalar_sum(&chi_shares);
    let mut x_shares: Vec<Scalar> = Vec::new();
    for share in key_shares.iter() {
        x_shares.push(share.secret.secret_share.dup());
    }
    let x = scalar_sum(&x_shares);
    assert!(x.mul(&k).equals(&k_times_x));

    let k_inv = k.invert().unwrap();
    let expected_nonce: Point = k_inv.mul_by_generator();
    assert!(expected_nonce.equals(&presigning_datas[0].nonce));
}

#[test]
fn execute_keygen() {
    let mut rng = seed(11);
    let shared_randomness = rng.fill(32);
    let num_parties: usize = 3;

    let mut r1 = Vec::new();
    for idx in 0..num_parties {
        r1.push(
            keygen::Round1::new(&mut rng, &shared_randomness, num_parties, idx as u8).unwrap(),
        );
    }
    let mut accs: Vec<HoleVecAccum<Vec<u8>>> = Vec::new();
    for i in 0..num_parties {
        accs.push(HoleVecAccum::new(num_parties, i));
    }
    for i in 0..num_parties {
        for j in 0..num_parties {
            if i != j {
                let msg = r1[i].to_send();
                let payload = r1[j]
                    .verify_received(PartyIdx::from_usize(i), msg)
                    .unwrap();
                accs[j].insert(i, payload);
            }
        }
    }
    let mut r2 = Vec::new();
    for (round, acc) in r1.into_iter().zip(accs.into_iter()) {
        r2.push(round.finalize(acc.finalize()));
    }

    let mut accs2: Vec<HoleVecAccum<keygen::FullData>> = Vec::new();
    for i in 0..num_parties {
        accs2.push(HoleVecAccum::new(num_parties, i));
    }
    for i in 0..num_parties {
        for j in 0..num_parties {
            if i != j {
                let msg = r2[i].to_send();
                let payload = r2[j]
                    .verify_received(PartyIdx::from_usize(i), msg)
                    .unwrap();
                accs2[j].insert(i, payload);
            }
        }
    }
    let mut r3 = Vec::new();
    for (round, acc) in r2.into_iter().zip(accs2.into_iter()) {
        r3.push(round.finalize(acc.finalize()));
    }

    let mut accs3: Vec<HoleVecAccum<bool>> = Vec::new();
    for i in 0..num_parties {
        accs3.push(HoleVecAccum::new(num_parties, i));
    }
    for i in 0..num_parties {
        for j in 0..num_parties {
            if i != j {
                let msg = r3[i].to_send();
                let payload = r3[j]
                    .verify_received(PartyIdx::from_usize(i), msg)
                    .unwrap();
                accs3[j].insert(i, payload);
            }
        }
    }
    let mut shares = Vec::new();
    for (round, acc) in r3.into_iter().zip(accs3.into_iter()) {
        acc.finalize();
        shares.push(round.finalize());
    }

    // Check that the sets of public keys are the same at each node.
    for s in shares.iter().skip(1) {
        for j in 0..num_parties {
            assert!(s.public[j].equals(&shares[0].public[j]));
        }
    }

    // Check that the public keys correspond to the secret key shares.
    for (i, s) in shares.iter().enumerate() {
        let derived = s.secret.mul_by_generator();
        assert!(derived.equals(&shares[0].public[i]));
    }
}

#[test]
fn keygen_reveal_must_match_commitment() {
    // A reveal whose pooled-randomness bytes were altered no longer
    // matches the committed hash.
    let mut rng = seed(13);
    let shared_randomness = rng.fill(32);
    let num_parties: usize = 2;

    let r1a = keygen::Round1::new(&mut rng, &shared_randomness, num_parties, 0).unwrap();
    let r1b = keygen::Round1::new(&mut rng, &shared_randomness, num_parties, 1).unwrap();

    let mut acc0: HoleVecAccum<Vec<u8>> = HoleVecAccum::new(num_parties, 0);
    let h1 = r1a
        .verify_received(PartyIdx::from_usize(1), r1b.to_send())
        .unwrap();
    acc0.insert(1, h1);
    let mut acc1: HoleVecAccum<Vec<u8>> = HoleVecAccum::new(num_parties, 1);
    let h0 = r1b
        .verify_received(PartyIdx::from_usize(0), r1a.to_send())
        .unwrap();
    acc1.insert(0, h0);
    let r2a = r1a.finalize(acc0.finalize());
    let r2b = r1b.finalize(acc1.finalize());

    let mut reveal = r2b.to_send();
    reveal.data.rid[0] ^= 1;
    match r2a.verify_received(PartyIdx::from_usize(1), reveal) {
        Err(synedrion::Error::TheirFault { party, error }) => {
            assert_eq!(party.as_usize(), 1);
            assert_eq!(
                error,
                synedrion::TheirFault::VerificationFail(synedrion::ProofKind::HashMismatch)
            );
        }
        _ => panic!("expected a hash-mismatch rejection"),
    }
}

#[test]
fn keygen_tampered_proof_is_rejected() {
    // A Schnorr response altered after the fact fails the curve check.
    let mut rng = seed(14);
    let shared_randomness = rng.fill(32);
    let num_parties: usize = 2;

    let mut r1 = Vec::new();
    for idx in 0..num_parties {
        r1.push(
            keygen::Round1::new(&mut rng, &shared_randomness, num_parties, idx as u8).unwrap(),
        );
    }
    let mut accs: Vec<HoleVecAccum<Vec<u8>>> = Vec::new();
    for i in 0..num_parties {
        accs.push(HoleVecAccum::new(num_parties, i));
    }
    for i in 0..num_parties {
        for j in 0..num_parties {
            if i != j {
                let msg = r1[i].to_send();
                let payload = r1[j]
                    .verify_received(PartyIdx::from_usize(i), msg)
                    .unwrap();
                accs[j].insert(i, payload);
            }
        }
    }
    let mut r2 = Vec::new();
    for (round, acc) in r1.into_iter().zip(accs.into_iter()) {
        r2.push(round.finalize(acc.finalize()));
    }
    let mut accs2: Vec<HoleVecAccum<keygen::FullData>> = Vec::new();
    for i in 0..num_parties {
        accs2.push(HoleVecAccum::new(num_parties, i));
    }
    for i in 0..num_parties {
        for j in 0..num_parties {
            if i != j {
                let msg = r2[i].to_send();
                let payload = r2[j]
                    .verify_received(PartyIdx::from_usize(i), msg)
                    .unwrap();
                accs2[j].insert(i, payload);
            }
        }
    }
    let mut r3 = Vec::new();
    for (round, acc) in r2.into_iter().zip(accs2.into_iter()) {
        r3.push(round.finalize(acc.finalize()));
    }

    let mut msg = r3[1].to_send();
    msg.proof.z = msg.proof.z.add(&msg.proof.z);
    match r3[0].verify_received(PartyIdx::from_usize(1), msg) {
        Err(synedrion::Error::TheirFault { party, error }) => {
            assert_eq!(party.as_usize(), 1);
            assert_eq!(
                error,
                synedrion::TheirFault::VerificationFail(synedrion::ProofKind::Sch)
            );
        }
        _ => panic!("expected a proof rejection"),
    }
}
