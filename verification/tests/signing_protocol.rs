//! End-to-end interactive signing through the session driver: fixed-seed
//! runs, shuffled delivery, tampering, divergent sessions, and a dropped
//! party.

use k256::ecdsa::signature::hazmat::PrehashVerifier;
use k256::ecdsa::{RecoveryId, VerifyingKey};
use synedrion::collections::PartyIdx;
use synedrion::drbg::Drbg;
use synedrion::{
    make_interactive_signing_session, make_key_shares, Error, KeyShare, ProofKind,
    RecoverableSignature, Session, TheirFault, ToSend,
};

fn seed(b: u8) -> Drbg {
    Drbg::from_seed(&vec![b; 32])
}

fn message() -> Vec<u8> {
    b"abcdefghijklmnopqrstuvwxyz123456".to_vec()
}

fn make_sessions(rng: &mut Drbg, shares: &[KeyShare<u32>]) -> Vec<Session> {
    let msg = message();
    let session_id = rng.fill(32);
    shares
        .iter()
        .map(|share| make_interactive_signing_session(rng, &session_id, share, &msg).unwrap())
        .collect()
}

fn shuffle(mailbag: &mut Vec<(usize, usize, Vec<u8>)>, rng: &mut Drbg) {
    let n = mailbag.len();
    for i in (1..n).rev() {
        let bytes = rng.fill(8);
        let mut v: u64 = 0;
        for b in bytes {
            v = (v << 8) | b as u64;
        }
        let j = (v % ((i + 1) as u64)) as usize;
        mailbag.swap(i, j);
    }
}

/// Runs all sessions in lockstep, optionally shuffling delivery order
/// within each stage.
fn run_lockstep(
    sessions: &mut Vec<Session>,
    rng: &mut Drbg,
    shuffle_rng: Option<&mut Drbg>,
) -> Vec<RecoverableSignature> {
    let n = sessions.len();
    let mut sh = shuffle_rng;
    while !sessions[0].is_final_stage() {
        let mut mailbag: Vec<(usize, usize, Vec<u8>)> = Vec::new();
        for i in 0..n {
            match sessions[i].get_messages(rng).unwrap() {
                ToSend::Broadcast(bytes) => {
                    for j in 0..n {
                        if j != i {
                            mailbag.push((i, j, bytes.clone()));
                        }
                    }
                }
                ToSend::Direct(pairs) => {
                    for (to, bytes) in pairs {
                        mailbag.push((i, to.as_usize(), bytes));
                    }
                }
            }
        }
        if let Some(ref mut srng) = sh {
            shuffle(&mut mailbag, srng);
        }
        for s in sessions.iter_mut() {
            while s.has_cached_messages() {
                s.receive_cached_message().unwrap();
            }
        }
        for (from, to, bytes) in mailbag {
            sessions[to].receive(PartyIdx::from_usize(from), &bytes).unwrap();
        }
        for s in sessions.iter_mut() {
            assert!(s.is_finished_receiving().unwrap());
            s.finalize_stage(rng).unwrap();
        }
    }
    sessions.iter().map(|s| s.result().unwrap()).collect()
}

fn check_signature(sig: &RecoverableSignature, share: &KeyShare<u32>, msg: &[u8]) {
    let (wire, rec) = sig.to_backend();
    let vkey_point = share.verifying_key();
    let vkey = VerifyingKey::from_sec1_bytes(&vkey_point.to_bytes()).unwrap();
    let backend_sig = k256::ecdsa::Signature::from_slice(&wire).unwrap();

    // The signature verifies under the aggregate verifying key.
    vkey.verify_prehash(msg, &backend_sig).unwrap();

    // The key can be recovered from the signature and the recovery byte.
    let rec_id = RecoveryId::from_byte(rec).unwrap();
    let recovered = VerifyingKey::recover_from_prehash(msg, &backend_sig, rec_id).unwrap();
    assert_eq!(recovered, vkey);
}

#[test]
fn signing() {
    let parties: Vec<u32> = vec![111, 222, 333];
    let mut rng = seed(3);
    let shares = make_key_shares(&mut rng, &parties).unwrap();
    let mut sessions = make_sessions(&mut rng, &shares);
    let results = run_lockstep(&mut sessions, &mut rng, None);
    let msg = message();
    for sig in results.iter() {
        check_signature(sig, &shares[0], &msg);
    }
    // Every party produces the same signature.
    let (w0, r0) = results[0].to_backend();
    for sig in results.iter().skip(1) {
        let (w, r) = sig.to_backend();
        assert_eq!(w, w0);
        assert_eq!(r, r0);
    }
}

#[test]
fn signing_fixed_seed() {
    // Centralized keygen with the all-ones seed, then a full signing run.
    let parties: Vec<u32> = vec![0, 1, 2];
    let mut rng = seed(1);
    let shares = make_key_shares(&mut rng, &parties).unwrap();
    let mut sessions = make_sessions(&mut rng, &shares);
    let results = run_lockstep(&mut sessions, &mut rng, None);
    let msg = message();
    for sig in results.iter() {
        check_signature(sig, &shares[0], &msg);
    }
}

/// Runs ten shuffled-dispatch trials from the given slice of the hundred
/// and checks that each produces the same signature as an unshuffled
/// reference run over the same party randomness.
fn shuffled_trials(first_trial: u8) {
    let parties: Vec<u32> = vec![0, 1, 2];
    let mut krng = seed(1);
    let shares = make_key_shares(&mut krng, &parties).unwrap();

    let mut rng = seed(1);
    let mut sessions = make_sessions(&mut rng, &shares);
    let reference = run_lockstep(&mut sessions, &mut rng, None);
    let (w0, r0) = reference[0].to_backend();

    for trial in first_trial..first_trial + 10 {
        let mut rng = seed(1);
        let mut shuffle_rng = Drbg::from_seed(&vec![trial, 77, 1, 2]);
        let mut sessions = make_sessions(&mut rng, &shares);
        let results = run_lockstep(&mut sessions, &mut rng, Some(&mut shuffle_rng));
        let (w, r) = results[0].to_backend();
        assert_eq!(w, w0);
        assert_eq!(r, r0);
    }
}

#[test]
fn signing_shuffled_delivery_trials_00_to_09() {
    shuffled_trials(0);
}

#[test]
fn signing_shuffled_delivery_trials_10_to_19() {
    shuffled_trials(10);
}

#[test]
fn signing_shuffled_delivery_trials_20_to_29() {
    shuffled_trials(20);
}

#[test]
fn signing_shuffled_delivery_trials_30_to_39() {
    shuffled_trials(30);
}

#[test]
fn signing_shuffled_delivery_trials_40_to_49() {
    shuffled_trials(40);
}

#[test]
fn signing_shuffled_delivery_trials_50_to_59() {
    shuffled_trials(50);
}

#[test]
fn signing_shuffled_delivery_trials_60_to_69() {
    shuffled_trials(60);
}

#[test]
fn signing_shuffled_delivery_trials_70_to_79() {
    shuffled_trials(70);
}

#[test]
fn signing_shuffled_delivery_trials_80_to_89() {
    shuffled_trials(80);
}

#[test]
fn signing_shuffled_delivery_trials_90_to_99() {
    shuffled_trials(90);
}

/// The starting byte of the data of chunk `idx` in a stage-tagged message.
fn chunk_data_offset(bytes: &[u8], idx: usize) -> usize {
    let mut pos = 1;
    for _ in 0..idx {
        let len = u32::from_be_bytes([bytes[pos], bytes[pos + 1], bytes[pos + 2], bytes[pos + 3]])
            as usize;
        pos += 4 + len;
    }
    pos + 4
}

#[test]
fn corrupted_affg_proof_is_blamed() {
    // One byte of the psi proof in a round-two message is corrupted; the
    // recipient blames the sender and produces no signature.
    let parties: Vec<u32> = vec![0, 1, 2];
    let mut rng = seed(5);
    let shares = make_key_shares(&mut rng, &parties).unwrap();
    let mut sessions = make_sessions(&mut rng, &shares);
    let n = sessions.len();

    // Stages one and two run clean.
    for _stage in 0..2 {
        let mut mailbag: Vec<(usize, usize, Vec<u8>)> = Vec::new();
        for i in 0..n {
            match sessions[i].get_messages(&mut rng).unwrap() {
                ToSend::Broadcast(bytes) => {
                    for j in 0..n {
                        if j != i {
                            mailbag.push((i, j, bytes.clone()));
                        }
                    }
                }
                ToSend::Direct(pairs) => {
                    for (to, bytes) in pairs {
                        mailbag.push((i, to.as_usize(), bytes));
                    }
                }
            }
        }
        for (from, to, bytes) in mailbag {
            sessions[to].receive(PartyIdx::from_usize(from), &bytes).unwrap();
        }
        for s in sessions.iter_mut() {
            s.finalize_stage(&mut rng).unwrap();
        }
    }

    // Stage three: flip one byte inside the psi proof sent by party 1 to
    // party 0. Chunk five of a round-two message is the first key of psi.
    let mut mailbag: Vec<(usize, usize, Vec<u8>)> = Vec::new();
    for i in 0..n {
        match sessions[i].get_messages(&mut rng).unwrap() {
            ToSend::Broadcast(bytes) => {
                for j in 0..n {
                    if j != i {
                        mailbag.push((i, j, bytes.clone()));
                    }
                }
            }
            ToSend::Direct(pairs) => {
                for (to, bytes) in pairs {
                    mailbag.push((i, to.as_usize(), bytes));
                }
            }
        }
    }
    let mut blamed = false;
    let mut blamed_for_statement = false;
    for (from, to, mut bytes) in mailbag {
        if from == 1 && to == 0 {
            // A byte of the proof's key chunk flips.
            let off = chunk_data_offset(&bytes, 5) + 1;
            bytes[off] ^= 0x01;
        }
        if from == 2 && to == 1 {
            // A byte of the masked product flips: the proof transcript no
            // longer covers the statement.
            let off = chunk_data_offset(&bytes, 1) + 1;
            bytes[off] ^= 0x01;
        }
        let outcome = sessions[to].receive(PartyIdx::from_usize(from), &bytes);
        if from == 1 && to == 0 {
            match outcome {
                Err(Error::TheirFault { party, error }) => {
                    assert_eq!(party.as_usize(), 1);
                    assert_eq!(error, TheirFault::VerificationFail(ProofKind::AffGPsi));
                    blamed = true;
                }
                other => panic!("expected a blamed sender, got {:?}", other.is_ok()),
            }
        } else if from == 2 && to == 1 {
            match outcome {
                Err(Error::TheirFault { party, error }) => {
                    assert_eq!(party.as_usize(), 2);
                    assert_eq!(error, TheirFault::VerificationFail(ProofKind::AffGPsi));
                    blamed_for_statement = true;
                }
                other => panic!("expected a blamed sender, got {:?}", other.is_ok()),
            }
        } else {
            outcome.unwrap();
        }
    }
    assert!(blamed);
    assert!(blamed_for_statement);
    // Party 0 is still waiting for the corrupted slot, so no signature
    // can be produced.
    assert!(!sessions[0].is_finished_receiving().unwrap());
}

#[test]
fn distinct_sessions_give_distinct_signatures() {
    // Two runs over identical key shares but different session
    // randomness produce distinct signatures, both valid.
    let parties: Vec<u32> = vec![0, 1, 2];
    let mut krng = seed(8);
    let shares = make_key_shares(&mut krng, &parties).unwrap();
    let msg = message();

    let mut rng_a = seed(21);
    let mut sessions_a = make_sessions(&mut rng_a, &shares);
    let results_a = run_lockstep(&mut sessions_a, &mut rng_a, None);

    let mut rng_b = seed(22);
    let mut sessions_b = make_sessions(&mut rng_b, &shares);
    let results_b = run_lockstep(&mut sessions_b, &mut rng_b, None);

    check_signature(&results_a[0], &shares[0], &msg);
    check_signature(&results_b[0], &shares[0], &msg);
    let (wa, _) = results_a[0].to_backend();
    let (wb, _) = results_b[0].to_backend();
    assert_ne!(wa, wb);
}

#[test]
fn dropped_party_stalls_and_is_reported() {
    // Party 2's round-three messages never arrive; parties 0 and 1 stall
    // and name party 2 as the one still owed a message.
    let parties: Vec<u32> = vec![0, 1, 2];
    let mut rng = seed(6);
    let shares = make_key_shares(&mut rng, &parties).unwrap();
    let mut sessions = make_sessions(&mut rng, &shares);
    let n = sessions.len();

    for stage in 0..4 {
        let mut mailbag: Vec<(usize, usize, Vec<u8>)> = Vec::new();
        for i in 0..n {
            match sessions[i].get_messages(&mut rng).unwrap() {
                ToSend::Broadcast(bytes) => {
                    for j in 0..n {
                        if j != i {
                            mailbag.push((i, j, bytes.clone()));
                        }
                    }
                }
                ToSend::Direct(pairs) => {
                    for (to, bytes) in pairs {
                        mailbag.push((i, to.as_usize(), bytes));
                    }
                }
            }
        }
        for (from, to, bytes) in mailbag {
            if stage == 3 && from == 2 {
                continue;
            }
            sessions[to].receive(PartyIdx::from_usize(from), &bytes).unwrap();
        }
        if stage < 3 {
            for s in sessions.iter_mut() {
                s.finalize_stage(&mut rng).unwrap();
            }
        }
    }

    for i in 0..2 {
        assert!(!sessions[i].is_finished_receiving().unwrap());
        let missing = sessions[i].missing_parties().unwrap();
        assert_eq!(missing.len(), 1);
        assert_eq!(missing[0].as_usize(), 2);
        // On timeout the caller reports the stalled slot as the sender's
        // fault.
        let report = Error::TheirFault {
            party: missing[0],
            error: TheirFault::MissingMessage,
        };
        assert!(matches!(
            report,
            Error::TheirFault { party, error: TheirFault::MissingMessage } if party.as_usize() == 2
        ));
    }
}

#[test]
fn one_stage_ahead_is_cached_two_ahead_rejected() {
    // A fast party's next-stage message is cached and applied after the
    // transition; a message two stages ahead is rejected outright.
    let parties: Vec<u32> = vec![0, 1];
    let mut rng = seed(4);
    let shares = make_key_shares(&mut rng, &parties).unwrap();
    let mut sessions = make_sessions(&mut rng, &shares);

    // Both parties emit their stage-one broadcasts.
    let b0 = match sessions[0].get_messages(&mut rng).unwrap() {
        ToSend::Broadcast(b) => b,
        _ => panic!("stage one is a broadcast"),
    };
    let b1 = match sessions[1].get_messages(&mut rng).unwrap() {
        ToSend::Broadcast(b) => b,
        _ => panic!("stage one is a broadcast"),
    };

    // Party 0 completes stage one and emits its stage-two message while
    // party 1 is still in stage one.
    sessions[0].receive(PartyIdx::from_usize(1), &b1).unwrap();
    sessions[0].finalize_stage(&mut rng).unwrap();
    let ahead = match sessions[0].get_messages(&mut rng).unwrap() {
        ToSend::Direct(pairs) => pairs.into_iter().next().unwrap().1,
        _ => panic!("stage two is direct"),
    };

    // Delivered one stage ahead: cached.
    assert!(!sessions[1].has_cached_messages());
    sessions[1].receive(PartyIdx::from_usize(0), &ahead).unwrap();
    assert!(sessions[1].has_cached_messages());

    // Delivered two stages ahead: rejected as out of order.
    let mut too_far = ahead.clone();
    too_far[0] = 3;
    match sessions[1].receive(PartyIdx::from_usize(0), &too_far) {
        Err(Error::TheirFault { party, error }) => {
            assert_eq!(party.as_usize(), 0);
            assert!(matches!(
                error,
                TheirFault::OutOfOrderMessage { current_stage: 1, message_stage: 3 }
            ));
        }
        _ => panic!("expected an out-of-order rejection"),
    }

    // Party 1 finishes stage one and applies the cached message after
    // the transition.
    sessions[1].receive(PartyIdx::from_usize(0), &b0).unwrap();
    sessions[1].finalize_stage(&mut rng).unwrap();
    sessions[1].get_messages(&mut rng).unwrap();
    sessions[1].receive_cached_message().unwrap();
    assert!(sessions[1].is_finished_receiving().unwrap());
}

#[test]
fn duplicate_delivery_is_rejected() {
    // The same sender slot cannot be filled twice in one round.
    let parties: Vec<u32> = vec![0, 1];
    let mut rng = seed(12);
    let shares = make_key_shares(&mut rng, &parties).unwrap();
    let mut sessions = make_sessions(&mut rng, &shares);

    let _b0 = sessions[0].get_messages(&mut rng).unwrap();
    let b1 = match sessions[1].get_messages(&mut rng).unwrap() {
        ToSend::Broadcast(b) => b,
        _ => panic!("stage one is a broadcast"),
    };
    sessions[0].receive(PartyIdx::from_usize(1), &b1).unwrap();
    match sessions[0].receive(PartyIdx::from_usize(1), &b1) {
        Err(Error::TheirFault { party, error }) => {
            assert_eq!(party.as_usize(), 1);
            assert_eq!(error, TheirFault::DuplicateMessage);
        }
        _ => panic!("expected a duplicate rejection"),
    }
}
