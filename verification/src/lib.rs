//! Threshold ECDSA signing over secp256k1, in the CGGMP21 style.
//!
//! A set of mutually distrusting parties each holds an additive share of a
//! signing key; together they produce a standard ECDSA signature on a
//! prehashed message without ever reconstructing the key. The crate contains
//! the multi-round presigning and signing protocol, the per-party session
//! driver that serializes rounds and caches out-of-order messages, the
//! supporting Paillier primitives, and the signed-envelope layer for
//! authenticated transports.

pub mod bigint;
pub mod bytes;
pub mod centralized;
pub mod codec;
pub mod common;
pub mod collections;
pub mod drbg;
pub mod group;
pub mod hashing;
pub mod keygen;
pub mod laws;
pub mod paillier;
pub mod presigning;
pub mod session;
pub mod sessions;
pub mod sigma;
pub mod signed_message;
pub mod signing;

pub use bytes::be_val;
pub use centralized::make_key_shares;
pub use collections::PartyIdx;
pub use common::{Error, MyFault, PresigningData, ProofKind, TheirFault};
pub use group::{Point, RecoverableSignature, Scalar, Signature};
pub use session::{InteractiveSigningState, Session, ToSend, ToSendSerialized};
pub use sessions::{
    make_interactive_signing_session, KeyShare, KeyShareChange, PartyId, PrehashedMessage,
    ToTypedId,
};
pub use signed_message::{MessageType, SessionId, SignedMessage, VerifiedMessage};
