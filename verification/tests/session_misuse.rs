//! Driving the session outside its protocol order, and inputs that hit
//! each rejection path of the round verifiers.

use synedrion::bigint::{nb_add, nb_div_rem};
use synedrion::collections::{HoleVecAccum, PartyIdx};
use synedrion::drbg::Drbg;
use synedrion::paillier::{Ciphertext, Randomizer};
use synedrion::presigning::{Round1Part1, Round2, Round2Direct};
use synedrion::sigma::{AffGProof, LogStarProof};
use synedrion::{
    make_interactive_signing_session, make_key_shares, Error, KeyShare, MyFault, ProofKind,
    Scalar, Session, TheirFault, ToSend,
};

fn seed(b: u8) -> Drbg {
    Drbg::from_seed(&vec![b; 32])
}

fn message() -> Vec<u8> {
    b"abcdefghijklmnopqrstuvwxyz123456".to_vec()
}

fn setup(n_seed: u8) -> (Drbg, Vec<KeyShare<u32>>, Vec<Session>) {
    let parties: Vec<u32> = vec![0, 1, 2];
    let mut rng = seed(n_seed);
    let shares = make_key_shares(&mut rng, &parties).unwrap();
    let msg = message();
    let session_id = rng.fill(32);
    let sessions = shares
        .iter()
        .map(|share| {
            make_interactive_signing_session(&mut rng, &session_id, share, &msg).unwrap()
        })
        .collect();
    (rng, shares, sessions)
}

/// Runs one full stage in lockstep.
fn run_stage(sessions: &mut Vec<Session>, rng: &mut Drbg) {
    let n = sessions.len();
    let mut mailbag: Vec<(usize, usize, Vec<u8>)> = Vec::new();
    for i in 0..n {
        match sessions[i].get_messages(rng).unwrap() {
            ToSend::Broadcast(bytes) => {
                for j in 0..n {
                    if j != i {
                        mailbag.push((i, j, bytes.clone()));
                    }
                }
            }
            ToSend::Direct(pairs) => {
                for (to, bytes) in pairs {
                    mailbag.push((i, to.as_usize(), bytes));
                }
            }
        }
    }
    for (from, to, bytes) in mailbag {
        sessions[to].receive(PartyIdx::from_usize(from), &bytes).unwrap();
    }
    for s in sessions.iter_mut() {
        s.finalize_stage(rng).unwrap();
    }
}

#[test]
fn wrong_state_calls_are_local_faults() {
    let (mut rng, _shares, mut sessions) = setup(31);

    // Receiving before this party has sent is a local fault.
    let bad = vec![1u8, 0, 0, 0, 0];
    match sessions[0].receive_current_stage(PartyIdx::from_usize(1), &vec![]) {
        Err(Error::MyFault(MyFault::InvalidState)) => {}
        _ => panic!("expected an invalid-state fault"),
    }

    // Asking for messages twice in one stage is a local fault.
    sessions[0].get_messages(&mut rng).unwrap();
    match sessions[0].get_messages(&mut rng) {
        Err(Error::MyFault(MyFault::InvalidState)) => {}
        _ => panic!("expected an invalid-state fault"),
    }

    // Finalizing with empty slots is a local fault.
    match sessions[0].finalize_stage(&mut rng) {
        Err(Error::MyFault(MyFault::InvalidState)) => {}
        _ => panic!("expected an invalid-state fault"),
    }

    // Applying a cached message when nothing is cached is a local fault.
    match sessions[0].receive_cached_message() {
        Err(Error::MyFault(MyFault::InvalidState)) => {}
        _ => panic!("expected an invalid-state fault"),
    }

    // The result is not available before the final stage.
    assert!(sessions[0].result().is_err());

    // A sender index out of range, or this party's own, is a local fault.
    match sessions[0].receive(PartyIdx::from_usize(7), &bad) {
        Err(Error::MyFault(MyFault::InvalidId)) => {}
        _ => panic!("expected an invalid-id fault"),
    }
    match sessions[0].receive(PartyIdx::from_usize(0), &bad) {
        Err(Error::MyFault(MyFault::InvalidId)) => {}
        _ => panic!("expected an invalid-id fault"),
    }
}

#[test]
fn malformed_frames_are_the_senders_fault() {
    let (mut rng, _shares, mut sessions) = setup(33);
    sessions[0].get_messages(&mut rng).unwrap();

    // An empty frame.
    match sessions[0].receive(PartyIdx::from_usize(1), &vec![]) {
        Err(Error::TheirFault { party, error: TheirFault::DeserializationError }) => {
            assert_eq!(party.as_usize(), 1);
        }
        _ => panic!("expected a deserialization fault"),
    }

    // A current-stage frame whose body is not a whole chunk list.
    match sessions[0].receive(PartyIdx::from_usize(1), &vec![1, 9, 9]) {
        Err(Error::TheirFault { party, error: TheirFault::DeserializationError }) => {
            assert_eq!(party.as_usize(), 1);
        }
        _ => panic!("expected a deserialization fault"),
    }
}

/// Drives two parties through presigning to the masked-product round,
/// with a known shared randomness, so that messages with valid proof
/// transcripts can be crafted for specific rejection paths.
fn rounds_to_stage_three(
    rng: &mut Drbg,
    shares: &[KeyShare<u32>],
    shared_randomness: &Vec<u8>,
) -> Vec<Round2> {
    let n = shares.len();
    let mut r1 = Vec::new();
    for idx in 0..n {
        r1.push(Round1Part1::new(
            rng,
            shared_randomness.clone(),
            n,
            idx,
            shares[idx].vectorized(),
        ));
    }
    let mut accs: Vec<HoleVecAccum<synedrion::presigning::Round1Bcast>> = Vec::new();
    for i in 0..n {
        accs.push(HoleVecAccum::new(n, i));
    }
    for i in 0..n {
        for j in 0..n {
            if i != j {
                let msg = r1[i].to_send();
                let payload = r1[j].verify_received(PartyIdx::from_usize(i), msg).unwrap();
                accs[j].insert(i, payload);
            }
        }
    }
    let mut r1b = Vec::new();
    for (round, acc) in r1.into_iter().zip(accs.into_iter()) {
        r1b.push(round.finalize(acc.finalize()));
    }
    let mut r2 = Vec::new();
    for round in r1b.into_iter() {
        r2.push(round.finalize(rng));
    }
    r2
}

/// A round-two message from party 1 to party 0 whose three proofs carry
/// correct transcripts over the given masked-product ciphertext.
fn crafted_round2(
    rounds: &[Round2],
    shares: &[KeyShare<u32>],
    shared_randomness: &Vec<u8>,
    d: Ciphertext,
) -> Round2Direct {
    let receiver_pk = shares[0].publics[0].paillier_pk.clone_key();
    let sender_pk = shares[1].publics[1].paillier_pk.clone_key();
    let gamma = Scalar::one().mul_by_generator();
    let d_hat = Ciphertext::from_raw_bytes(&vec![4, 5]);
    let f = Ciphertext::from_raw_bytes(&vec![6]);
    let f_hat = Ciphertext::from_raw_bytes(&vec![7]);
    // The receiver verifies against its own broadcast K ciphertext.
    let k_receiver = rounds[0].k_ciphertexts[0].clone_ct();
    let psi = AffGProof::random(
        &receiver_pk,
        &sender_pk,
        &k_receiver,
        &d,
        &f,
        &gamma,
        shared_randomness,
        1,
    );
    let psi_hat = AffGProof::random(
        &receiver_pk,
        &sender_pk,
        &k_receiver,
        &d_hat,
        &f_hat,
        &shares[1].publics[1].x,
        shared_randomness,
        1,
    );
    let gen = Scalar::one().mul_by_generator();
    let psi_hat_prime = LogStarProof::random(
        &sender_pk,
        &rounds[0].g_ciphertexts[1],
        &gen,
        &gamma,
        shared_randomness,
        1,
    );
    Round2Direct { gamma, d, d_hat, f, f_hat, psi, psi_hat, psi_hat_prime }
}

#[test]
fn out_of_range_product_is_rejected() {
    // A masked product that decrypts to roughly half the modulus exceeds
    // the asserted bound and is the sender's fault, even when every proof
    // transcript is in order.
    let parties: Vec<u32> = vec![0, 1];
    let mut rng = seed(35);
    let shares = make_key_shares(&mut rng, &parties).unwrap();
    let shared_randomness = rng.fill(32);
    let rounds = rounds_to_stage_three(&mut rng, &shares, &shared_randomness);

    let receiver_pk = shares[0].publics[0].paillier_pk.clone_key();
    let n_bytes = receiver_pk.n_bytes();
    let two = vec![2u8];
    let (half, _) = nb_div_rem(&n_bytes, &two);
    let big_plain = nb_add(&half, &vec![3u8]);
    let rho = Randomizer::random(&mut rng, &receiver_pk);
    let d = Ciphertext::new_with_randomizer(&receiver_pk, &big_plain, &rho);

    let msg = crafted_round2(&rounds, &shares, &shared_randomness, d);
    match rounds[0].verify_received(PartyIdx::from_usize(1), msg) {
        Err(Error::TheirFault { party, error }) => {
            assert_eq!(party.as_usize(), 1);
            assert_eq!(error, TheirFault::VerificationFail(ProofKind::RangeBound));
        }
        _ => panic!("expected a range-bound rejection"),
    }
}

#[test]
fn wrong_proof_statements_are_rejected() {
    // A discrete-log transcript over the wrong statement is rejected, as
    // is an affine transcript over a mismatched ciphertext.
    let parties: Vec<u32> = vec![0, 1];
    let mut rng = seed(37);
    let shares = make_key_shares(&mut rng, &parties).unwrap();
    let shared_randomness = rng.fill(32);
    let rounds = rounds_to_stage_three(&mut rng, &shares, &shared_randomness);

    let receiver_pk = shares[0].publics[0].paillier_pk.clone_key();
    let rho = Randomizer::random(&mut rng, &receiver_pk);
    let d = Ciphertext::new_with_randomizer(&receiver_pk, &vec![9u8], &rho);

    // The log-star transcript speaks about the wrong ciphertext: the
    // sender's K instead of its G.
    let mut msg = crafted_round2(&rounds, &shares, &shared_randomness, d);
    let gen = Scalar::one().mul_by_generator();
    msg.psi_hat_prime = LogStarProof::random(
        &shares[1].publics[1].paillier_pk,
        &rounds[0].k_ciphertexts[1],
        &gen,
        &msg.gamma,
        &shared_randomness,
        1,
    );
    match rounds[0].verify_received(PartyIdx::from_usize(1), msg) {
        Err(Error::TheirFault { party, error }) => {
            assert_eq!(party.as_usize(), 1);
            assert_eq!(error, TheirFault::VerificationFail(ProofKind::LogStar));
        }
        _ => panic!("expected a log-star rejection"),
    }

    // The second affine transcript binds a different D than the message
    // carries.
    let rho2 = Randomizer::random(&mut rng, &receiver_pk);
    let d2 = Ciphertext::new_with_randomizer(&receiver_pk, &vec![9u8], &rho2);
    let mut msg = crafted_round2(&rounds, &shares, &shared_randomness, d2);
    msg.d_hat = Ciphertext::from_raw_bytes(&vec![8, 8]);
    match rounds[0].verify_received(PartyIdx::from_usize(1), msg) {
        Err(Error::TheirFault { party, error }) => {
            assert_eq!(party.as_usize(), 1);
            assert_eq!(error, TheirFault::VerificationFail(ProofKind::AffGPsiHat));
        }
        _ => panic!("expected an affine-proof rejection"),
    }
}
