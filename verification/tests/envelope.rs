//! The signed-envelope layer: an envelope produced by a party's signer
//! verifies under that party's key, and fails under any tampering or any
//! other key.

use synedrion::drbg::Drbg;
use synedrion::group::verifying_key_of;
use synedrion::{MessageType, SessionId, SignedMessage, VerifiedMessage};

fn signing_key() -> Vec<u8> {
    let mut sk = vec![0u8; 32];
    sk[31] = 7;
    sk
}

fn other_signing_key() -> Vec<u8> {
    let mut sk = vec![0u8; 32];
    sk[31] = 9;
    sk
}

fn sample_envelope(sk: &Vec<u8>) -> (SessionId, VerifiedMessage) {
    let mut rng = Drbg::from_seed(&vec![42u8; 32]);
    let sid = SessionId::random(&mut rng);
    let payload: Vec<u8> = vec![5, 6, 7, 8, 9];
    let vm = VerifiedMessage::new(sk, &sid, 3, MessageType::Direct, &payload).unwrap();
    (sid, vm)
}

#[test]
fn envelope_verifies_under_signer_key() {
    let sk = signing_key();
    let vk = verifying_key_of(&sk).unwrap();
    let (_sid, vm) = sample_envelope(&sk);
    assert_eq!(vm.round(), 3);
    assert_eq!(vm.message_type(), MessageType::Direct);
    assert_eq!(vm.payload(), &vec![5u8, 6, 7, 8, 9]);
    let wire = vm.into_unverified();
    let verified = wire.verify(&vk).unwrap();
    assert_eq!(verified.payload(), &vec![5u8, 6, 7, 8, 9]);
    assert_eq!(verified.round(), 3);
}

#[test]
fn tampered_payload_fails_verification() {
    let sk = signing_key();
    let vk = verifying_key_of(&sk).unwrap();
    let (sid, vm) = sample_envelope(&sk);
    let wire = vm.into_unverified();

    // Reassemble the envelope with one payload byte changed but the
    // original signature: the signature no longer covers the bytes.
    let payload: Vec<u8> = vec![5, 6, 7, 8, 9];
    let h = synedrion::signed_message::message_hash(&sid, 3, MessageType::Direct, &payload);
    let sig = synedrion::group::ecdsa_sign(&sk, &h).unwrap();
    let tampered = SignedMessage::from_parts(
        sid.dup(),
        wire.round(),
        wire.message_type(),
        vec![5, 6, 7, 8, 0],
        sig,
    );
    assert!(tampered.verify(&vk).is_err());
}

#[test]
fn wrong_round_fails_verification() {
    let sk = signing_key();
    let vk = verifying_key_of(&sk).unwrap();
    let (sid, vm) = sample_envelope(&sk);
    let wire = vm.into_unverified();
    let payload: Vec<u8> = vec![5, 6, 7, 8, 9];
    let h = synedrion::signed_message::message_hash(&sid, 3, MessageType::Direct, &payload);
    let sig = synedrion::group::ecdsa_sign(&sk, &h).unwrap();
    // Same payload and signature, different claimed round.
    let shifted = SignedMessage::from_parts(sid.dup(), 4, wire.message_type(), payload, sig);
    assert!(shifted.verify(&vk).is_err());
}

#[test]
fn wrong_key_fails_verification() {
    let sk = signing_key();
    let other_vk = verifying_key_of(&other_signing_key()).unwrap();
    let (_sid, vm) = sample_envelope(&sk);
    let wire = vm.into_unverified();
    assert!(wire.verify(&other_vk).is_err());
}

#[test]
fn invalid_signing_key_is_a_local_fault() {
    // The all-zero bytes are not a signing key; signing reports the
    // local fault instead of producing an envelope.
    let mut rng = Drbg::from_seed(&vec![50u8; 32]);
    let sid = SessionId::random(&mut rng);
    let payload: Vec<u8> = vec![1, 2, 3];
    let zero_sk = vec![0u8; 32];
    match VerifiedMessage::new(&zero_sk, &sid, 1, MessageType::Broadcast, &payload) {
        Err(synedrion::MyFault::SigningError) => {}
        _ => panic!("expected a signing fault"),
    }
    assert!(verifying_key_of(&zero_sk).is_none());
}

#[test]
fn session_id_derivation_is_deterministic() {
    let a = SessionId::from_seed(&vec![1, 2, 3]);
    let b = SessionId::from_seed(&vec![1, 2, 3]);
    let c = SessionId::from_seed(&vec![1, 2, 4]);
    assert!(a.equals(&b));
    assert!(!a.equals(&c));
}
