//! Signed envelopes for authenticated transports.
//!
//! Each outbound payload is wrapped with the session identifier, the round
//! number and the message type, and signed with the party's long-term
//! signing key over the transcript hash; recipients verify against the
//! expected verifying key before any protocol processing.

use crate::common::{MyFault, ProofKind, TheirFault};
use crate::group::{ecdsa_ok, ecdsa_sig_of, ecdsa_sign, ecdsa_verify, is_signing_key, sk_check,
    vk_of};
use crate::hashing::{framed, sha256_of, Hasher};
use vstd::prelude::*;

verus! {

/// A session identifier: 32 bytes.
pub struct SessionId {
    b: Vec<u8>,
}

/// The domain-separation tag of session-identifier derivation.
pub open spec fn session_id_dst() -> Seq<u8> {
    seq![83u8, 101, 115, 115, 105, 111, 110, 73, 100]
}

impl SessionId {
    pub closed spec fn rep(&self) -> Seq<u8> {
        self.b@
    }

    pub open spec fn wf(&self) -> bool {
        self.rep().len() == 32
    }

    /// Derives an identifier from a seed by hashing it under a dedicated
    /// tag.
    pub fn from_seed(seed: &Vec<u8>) -> (r: SessionId)
        requires
            seed@.len() < 0x100000000,
        ensures
            r.wf(),
            r.rep() == sha256_of(framed(session_id_dst()) + framed(seed@)),
    {
        let mut dst: Vec<u8> = Vec::new();
        dst.push(83);
        dst.push(101);
        dst.push(115);
        dst.push(115);
        dst.push(105);
        dst.push(111);
        dst.push(110);
        dst.push(73);
        dst.push(100);
        proof {
            assert(dst@ =~= session_id_dst());
        }
        let mut h = Hasher::new_with_dst(&dst);
        h.chain_bytes(seed);
        SessionId { b: h.finalize() }
    }

    /// Draws a fresh random identifier.
    pub fn random(rng: &mut crate::drbg::Drbg) -> (r: SessionId)
        requires
            old(rng).wf(),
        ensures
            final (rng).wf(),
            r.wf(),
    {
        SessionId { b: rng.fill(32) }
    }

    /// The identifier bytes.
    pub fn to_bytes(&self) -> (r: Vec<u8>)
        ensures
            r@ == self.rep(),
    {
        let r = self.b.clone();
        proof {
            assert(r@ =~= self.b@);
        }
        r
    }

    /// An explicit copy.
    pub fn dup(&self) -> (r: SessionId)
        ensures
            r.rep() == self.rep(),
            r.wf() == self.wf(),
    {
        SessionId { b: self.to_bytes() }
    }

    /// Identifier equality, on the bytes.
    pub fn equals(&self, other: &SessionId) -> (r: bool)
        ensures
            r == (self.rep() == other.rep()),
    {
        crate::bytes::bytes_eq(&self.b, &other.b)
    }
}

/// Protocol message type.
#[derive(Clone, Copy, Debug, PartialEq, Eq, Structural)]
pub enum MessageType {
    /// Direct messaging part of the round.
    Direct,
    /// Broadcasting part of the round.
    Broadcast,
    /// A service message for broadcast consensus.
    BroadcastConsensus,
}

impl MessageType {
    /// The one-byte transcript tag of this type.
    pub open spec fn tag_spec(&self) -> u8 {
        match self {
            MessageType::Direct => 0,
            MessageType::Broadcast => 1,
            MessageType::BroadcastConsensus => 2,
        }
    }

    pub fn tag(&self) -> (r: u8)
        ensures
            r == self.tag_spec(),
    {
        match self {
            MessageType::Direct => 0,
            MessageType::Broadcast => 1,
            MessageType::BroadcastConsensus => 2,
        }
    }
}

/// The domain-separation tag of envelope signing.
pub open spec fn signed_message_dst() -> Seq<u8> {
    seq![83u8, 105, 103, 110, 101, 100, 77, 101, 115, 115, 97, 103, 101]
}

/// The transcript hash an envelope signature covers: the session
/// identifier, the round, the message type and the payload, under the
/// envelope tag.
pub open spec fn message_hash_spec(
    sid: Seq<u8>,
    round: u8,
    message_type: MessageType,
    payload: Seq<u8>,
) -> Seq<u8> {
    sha256_of(
        framed(signed_message_dst()) + framed(sid) + seq![round] + seq![message_type.tag_spec()]
            + framed(payload),
    )
}

/// Computes the transcript hash of an envelope.
pub fn message_hash(
    session_id: &SessionId,
    round: u8,
    message_type: MessageType,
    payload: &Vec<u8>,
) -> (r: Vec<u8>)
    requires
        payload@.len() < 0x100000000,
        session_id.wf(),
    ensures
        r@ == message_hash_spec(session_id.rep(), round, message_type, payload@),
        r@.len() == 32,
{
    let mut dst: Vec<u8> = Vec::new();
    dst.push(83);
    dst.push(105);
    dst.push(103);
    dst.push(110);
    dst.push(101);
    dst.push(100);
    dst.push(77);
    dst.push(101);
    dst.push(115);
    dst.push(115);
    dst.push(97);
    dst.push(103);
    dst.push(101);
    proof {
        assert(dst@ =~= signed_message_dst());
    }
    let mut h = Hasher::new_with_dst(&dst);
    let sid = session_id.to_bytes();
    h.chain_bytes(&sid);
    h.chain_u8(round);
    h.chain_u8(message_type.tag());
    h.chain_bytes(payload);
    let r = h.finalize();
    proof {
        assert(framed(signed_message_dst()) + framed(session_id.rep()) + seq![round] + seq![
            message_type.tag_spec(),
        ] + framed(payload@) =~= ((framed(signed_message_dst()) + framed(session_id.rep()))
            + seq![round]) + seq![message_type.tag_spec()] + framed(payload@));
    }
    r
}

/// A (yet) unverified envelope: the framing fields, the payload, and the
/// sender's signature over their transcript hash.
pub struct SignedMessage {
    session_id: SessionId,
    round: u8,
    message_type: MessageType,
    payload: Vec<u8>,
    signature: Vec<u8>,
}

impl SignedMessage {
    pub closed spec fn session_id_spec(&self) -> Seq<u8> {
        self.session_id.rep()
    }

    pub closed spec fn round_spec(&self) -> u8 {
        self.round
    }

    pub closed spec fn message_type_spec(&self) -> MessageType {
        self.message_type
    }

    pub closed spec fn payload_spec(&self) -> Seq<u8> {
        self.payload@
    }

    pub closed spec fn signature_spec(&self) -> Seq<u8> {
        self.signature@
    }

    pub open spec fn wf(&self) -> bool {
        self.payload_spec().len() < 0x100000000 && self.session_id_spec().len() == 32
    }

    /// The transcript hash this envelope's signature must cover.
    pub open spec fn hash_spec(&self) -> Seq<u8> {
        message_hash_spec(
            self.session_id_spec(),
            self.round_spec(),
            self.message_type_spec(),
            self.payload_spec(),
        )
    }

    /// Reassembles an envelope from its wire fields, as a transport hands
    /// them over; nothing is checked until `verify`.
    pub fn from_parts(
        session_id: SessionId,
        round: u8,
        message_type: MessageType,
        payload: Vec<u8>,
        signature: Vec<u8>,
    ) -> (r: SignedMessage)
        ensures
            r.session_id_spec() == session_id.rep(),
            r.round_spec() == round,
            r.message_type_spec() == message_type,
            r.payload_spec() == payload@,
            r.signature_spec() == signature@,
    {
        SignedMessage { session_id, round, message_type, payload, signature }
    }

    /// The session identifier of this message.
    pub fn session_id(&self) -> (r: &SessionId)
        ensures
            r.rep() == self.session_id_spec(),
    {
        &self.session_id
    }

    /// The round of this message.
    pub fn round(&self) -> (r: u8)
        ensures
            r == self.round_spec(),
    {
        self.round
    }

    /// The message type.
    pub fn message_type(&self) -> (r: MessageType)
        ensures
            r == self.message_type_spec(),
    {
        self.message_type
    }

    /// Verifies the envelope against the claimed sender's verifying key:
    /// succeeds exactly when the signature verifies over the unmodified
    /// framing and payload.
    pub fn verify(self, verifier_vk: &Vec<u8>) -> (r: Result<VerifiedMessage, TheirFault>)
        requires
            self.wf(),
        ensures
            match r {
                Ok(vm) => {
                    &&& ecdsa_ok(verifier_vk@, self.hash_spec(), self.signature_spec())
                    &&& vm.payload_spec() == self.payload_spec()
                    &&& vm.round_spec() == self.round_spec()
                    &&& vm.session_id_spec() == self.session_id_spec()
                    &&& vm.message_type_spec() == self.message_type_spec()
                },
                Err(e) => {
                    &&& !ecdsa_ok(verifier_vk@, self.hash_spec(), self.signature_spec())
                    &&& e == TheirFault::VerificationFail(ProofKind::EnvelopeSignature)
                },
            },
    {
        let h = message_hash(&self.session_id, self.round, self.message_type, &self.payload);
        if ecdsa_verify(verifier_vk, &h, &self.signature) {
            Ok(VerifiedMessage(self))
        } else {
            Err(TheirFault::VerificationFail(ProofKind::EnvelopeSignature))
        }
    }
}

/// An envelope whose signature has been produced or checked locally.
pub struct VerifiedMessage(SignedMessage);

impl VerifiedMessage {
    pub closed spec fn session_id_spec(&self) -> Seq<u8> {
        self.0.session_id_spec()
    }

    pub closed spec fn round_spec(&self) -> u8 {
        self.0.round_spec()
    }

    pub closed spec fn message_type_spec(&self) -> MessageType {
        self.0.message_type_spec()
    }

    pub closed spec fn payload_spec(&self) -> Seq<u8> {
        self.0.payload_spec()
    }

    pub closed spec fn signature_spec(&self) -> Seq<u8> {
        self.0.signature_spec()
    }

    /// Signs an envelope over the framing and payload with the party's
    /// long-term signing key; the produced envelope verifies under the
    /// key's verifying key. Fails exactly when the key bytes are not a
    /// signing key.
    pub fn new(
        signer_sk: &Vec<u8>,
        session_id: &SessionId,
        round: u8,
        message_type: MessageType,
        message_bytes: &Vec<u8>,
    ) -> (r: Result<VerifiedMessage, MyFault>)
        requires
            message_bytes@.len() < 0x100000000,
            session_id.wf(),
        ensures
            match r {
                Ok(vm) => {
                    &&& is_signing_key(signer_sk@)
                    &&& vm.session_id_spec() == session_id.rep()
                    &&& vm.round_spec() == round
                    &&& vm.message_type_spec() == message_type
                    &&& vm.payload_spec() == message_bytes@
                    &&& vm.signature_spec() == ecdsa_sig_of(
                        signer_sk@,
                        message_hash_spec(session_id.rep(), round, message_type, message_bytes@),
                    )
                    &&& ecdsa_ok(
                        vk_of(signer_sk@),
                        message_hash_spec(session_id.rep(), round, message_type, message_bytes@),
                        vm.signature_spec(),
                    )
                },
                Err(e) => e == MyFault::SigningError,
            },
    {
        if !sk_check(signer_sk) {
            return Err(MyFault::SigningError);
        }
        let h = message_hash(session_id, round, message_type, message_bytes);
        let signature = match ecdsa_sign(signer_sk, &h) {
            Some(sig) => sig,
            None => {
                return Err(MyFault::SigningError);
            },
        };
        let payload = message_bytes.clone();
        proof {
            assert(payload@ =~= message_bytes@);
        }
        Ok(
            VerifiedMessage(
                SignedMessage {
                    session_id: session_id.dup(),
                    round,
                    message_type,
                    payload,
                    signature,
                },
            ),
        )
    }

    /// Strips the verification marker, yielding the envelope for the
    /// wire.
    pub fn into_unverified(self) -> (r: SignedMessage)
        ensures
            r.session_id_spec() == self.session_id_spec(),
            r.round_spec() == self.round_spec(),
            r.message_type_spec() == self.message_type_spec(),
            r.payload_spec() == self.payload_spec(),
            r.signature_spec() == self.signature_spec(),
    {
        self.0
    }

    pub fn session_id(&self) -> (r: &SessionId)
        ensures
            r.rep() == self.session_id_spec(),
    {
        &self.0.session_id
    }

    pub fn payload(&self) -> (r: &Vec<u8>)
        ensures
            r@ == self.payload_spec(),
    {
        &self.0.payload
    }

    pub fn round(&self) -> (r: u8)
        ensures
            r == self.round_spec(),
    {
        self.0.round
    }

    pub fn message_type(&self) -> (r: MessageType)
        ensures
            r == self.message_type_spec(),
    {
        self.0.message_type
    }
}

} // verus!
