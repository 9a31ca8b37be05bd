//! Shared protocol data: scheme parameters, key shares, presigning output,
//! and the error taxonomy.

use crate::bytes::pow256;
use crate::group::{pt_fold, q_order, Point, Scalar};
use crate::paillier::{PaillierPublicKey, PaillierSecretKey};
use vstd::prelude::*;

verus! {

/// Bytes of magnitude allowed for the masking values `beta`: `2^256`.
pub const LP_BYTES: usize = 32;

/// Bytes bounding the decrypted masked products: `2^528`, enough for a
/// product of two curve scalars plus a mask.
pub const ALPHA_BOUND_BYTES: usize = 66;

/// Bytes of each Paillier prime.
pub const PRIME_BYTES: usize = 34;

/// Bytes of the session's shared randomness and of a session identifier.
pub const SEC_BYTES: usize = 32;

/// The public data a party holds about one participant: the public key
/// share and the participant's Paillier key.
#[derive(Clone, Debug)]
pub struct KeySharePublic {
    pub x: Point,
    pub paillier_pk: PaillierPublicKey,
}

impl KeySharePublic {
    pub open spec fn wf(&self) -> bool {
        &&& self.x.wf()
        &&& self.x.rep().len() == 33
        &&& self.paillier_pk.wf()
        &&& self.paillier_pk.n_val() >= pow256(66)
    }
}

/// The secret data of one party: its additive share of the signing key and
/// its Paillier secret key.
#[derive(Clone, Debug)]
pub struct KeyShareSecret {
    pub secret_share: Scalar,
    pub paillier_sk: PaillierSecretKey,
}

/// A key share with the per-party public data held as a flat vector
/// indexed by party index.
#[derive(Clone, Debug)]
pub struct KeyShareVectorized {
    pub secret: KeyShareSecret,
    pub public: Vec<KeySharePublic>,
}

impl KeyShareVectorized {
    /// Well-formed for a protocol of `n` parties in which this share
    /// belongs to party `me`.
    pub open spec fn wf(&self, n: int, me: int) -> bool {
        &&& self.public@.len() == n
        &&& 0 <= me < n
        &&& forall|i: int| 0 <= i < n ==> (#[trigger] self.public@[i]).wf()
        &&& self.secret.secret_share.wf()
        &&& self.secret.paillier_sk.wf()
        &&& self.secret.paillier_sk.n_val() == self.public@[me].paillier_pk.n_val()
    }

    /// The aggregate verifying key: the sum of all public shares, folded
    /// in index order from the first.
    pub open spec fn vkey_rep(&self) -> Seq<u8> {
        pt_fold(
            self.public@[0].x.rep(),
            crate::group::point_reps(self.public@.skip(1).map_values(|p: KeySharePublic| p.x)),
        )
    }

    /// Computes the aggregate verifying key.
    pub fn verifying_key_as_point(&self) -> (r: Point)
        requires
            self.public@.len() >= 1,
            forall|i: int| 0 <= i < self.public@.len() ==> (#[trigger] self.public@[i]).wf(),
        ensures
            r.wf(),
            r.rep() == self.vkey_rep(),
    {
        let first = self.public[0].x.dup();
        let mut rest: Vec<Point> = Vec::new();
        let mut i: usize = 1;
        while i < self.public.len()
            invariant
                forall|k: int|
                    0 <= k < self.public@.len() ==> (#[trigger] self.public@[k]).wf(),
                1 <= i <= self.public@.len(),
                rest@.len() == i - 1,
                forall|k: int| 0 <= k < i - 1 ==> (#[trigger] rest@[k]).wf(),
                forall|k: int|
                    0 <= k < i - 1 ==> (#[trigger] rest@[k]).rep() == self.public@[k + 1].x.rep(),
            decreases self.public@.len() - i,
        {
            let p = self.public[i].x.dup();
            rest.push(p);
            i += 1;
        }
        proof {
            assert(crate::group::point_reps(rest@) =~= crate::group::point_reps(
                self.public@.skip(1).map_values(|p: KeySharePublic| p.x),
            ));
        }
        crate::group::point_fold_sum(first, &rest)
    }
}

/// The output of presigning: the common nonce point `R`, this party's
/// additive share of the ephemeral scalar `k`, and its additive share of
/// the product `k·x`.
#[derive(Clone, Debug)]
pub struct PresigningData {
    pub nonce: Point,
    pub ephemeral_scalar_share: Scalar,
    pub product_share: Scalar,
}

impl PresigningData {
    pub open spec fn wf(&self) -> bool {
        &&& self.nonce.wf()
        &&& self.ephemeral_scalar_share.wf()
        &&& self.product_share.wf()
    }
}

/// Which check an incoming message failed.
#[derive(Clone, Copy, Debug, PartialEq, Eq, Structural)]
pub enum ProofKind {
    /// The `psi` affine-transform proof of round two.
    AffGPsi,
    /// The `psi_hat` affine-transform proof of round two.
    AffGPsiHat,
    /// A discrete-log proof.
    LogStar,
    /// The encryption-in-range proof of round one.
    Enc,
    /// The Schnorr proof of key generation.
    Sch,
    /// A commitment hash that did not match.
    HashMismatch,
    /// A decrypted masked product outside its asserted range.
    RangeBound,
    /// An envelope signature that did not verify.
    EnvelopeSignature,
}

/// A fault attributable to the sending party.
#[derive(Clone, Copy, Debug, PartialEq, Eq, Structural)]
pub enum TheirFault {
    DeserializationError,
    DuplicateMessage,
    OutOfOrderMessage { current_stage: u8, message_stage: u8 },
    VerificationFail(ProofKind),
    MissingMessage,
}

/// A fault of the local caller: the session was driven in a state that
/// does not admit the requested operation.
#[derive(Clone, Copy, Debug, PartialEq, Eq, Structural)]
pub enum MyFault {
    InvalidState,
    InvalidId,
    SigningError,
}

/// A session error: local misuse, an attributable remote fault, or a
/// protocol-level failure that triggers the identification sub-protocol.
#[derive(Clone, Copy, Debug, PartialEq, Eq, Structural)]
pub enum Error {
    MyFault(MyFault),
    TheirFault { party: crate::collections::PartyIdx, error: TheirFault },
    /// The delta consistency check of round three failed; blame evidence
    /// was produced and the session is terminal.
    ErrorRound,
}

/// The sum of a sequence of integers (summed left to right).
pub open spec fn int_sum(s: Seq<int>) -> int
    decreases s.len(),
{
    if s.len() == 0 {
        0
    } else {
        int_sum(s.drop_last()) + s.last()
    }
}

/// The group order exceeds two and lies below any well-formed Paillier
/// modulus.
pub proof fn lemma_q_below_modulus(n: nat)
    requires
        n >= pow256(66),
    ensures
        2 < q_order() < n,
{
    crate::group::lemma_q_positive();
    crate::bytes::lemma_be_val_bound(crate::group::q_seq());
    vstd::arithmetic::power::lemma_pow_strictly_increases(256, 32, 66);
}

} // verus!
