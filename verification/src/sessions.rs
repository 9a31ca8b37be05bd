//! The externally-facing layer: user-chosen party identifiers, the key
//! share they hold, and session construction for interactive signing.
//!
//! Internally every party is addressed by its index; the types here carry
//! the opaque identifiers and translate them to indices once, when the
//! session is made.

use crate::common::{Error, KeySharePublic, KeyShareSecret, KeyShareVectorized, MyFault,
    PresigningData};
use crate::drbg::Drbg;
use crate::group::{Point, RecoverableSignature, Scalar};
use crate::session::Session;
use vstd::prelude::*;

verus! {

/// A user-chosen, opaque party identifier.
pub trait PartyId: Sized {
    /// The abstract identity this identifier denotes.
    spec fn id_spec(&self) -> int;

    /// Identifier equality.
    fn id_eq(&self, other: &Self) -> (r: bool)
        ensures
            r == (self.id_spec() == other.id_spec()),
    ;

    /// An explicit copy.
    fn dup_id(&self) -> (r: Self)
        ensures
            r.id_spec() == self.id_spec(),
    ;
}

impl PartyId for u32 {
    open spec fn id_spec(&self) -> int {
        *self as int
    }

    fn id_eq(&self, other: &Self) -> (r: bool) {
        *self == *other
    }

    fn dup_id(&self) -> (r: Self) {
        *self
    }
}

/// A protocol result that may need its party indices translated back to
/// identifiers; signing results carry none, so the translation is the
/// identity.
pub trait ToTypedId<I: PartyId>: Sized {
    fn to_typed_id(self, ids: &Vec<I>, my_id: &I) -> Self;
}

impl<I: PartyId> ToTypedId<I> for PresigningData {
    fn to_typed_id(self, _ids: &Vec<I>, _my_id: &I) -> Self {
        self
    }
}

impl<I: PartyId> ToTypedId<I> for RecoverableSignature {
    fn to_typed_id(self, _ids: &Vec<I>, _my_id: &I) -> Self {
        self
    }
}

/// A party's key share, with the per-party public data held as a flat
/// vector indexed by party index and this party's own slot tracked by an
/// explicit index.
pub struct KeyShare<I> {
    pub id: I,
    pub index: usize,
    pub secret: KeyShareSecret,
    pub ids: Vec<I>,
    pub publics: Vec<KeySharePublic>,
}

impl<I: PartyId> KeyShare<I> {
    pub open spec fn wf(&self) -> bool {
        &&& self.ids@.len() == self.publics@.len()
        &&& 2 <= self.ids@.len() <= 0xffffffff
        &&& (self.index as int) < self.ids@.len()
        &&& self.id.id_spec() == self.ids@[self.index as int].id_spec()
        &&& forall|i: int| 0 <= i < self.publics@.len() ==> (#[trigger] self.publics@[i]).wf()
        &&& self.secret.secret_share.wf()
        &&& self.secret.paillier_sk.wf()
        &&& self.secret.paillier_sk.n_val() == self.publics@[self.index as int].paillier_pk.n_val()
    }

    /// All party identifiers, in index order.
    pub fn parties(&self) -> (r: Vec<I>)
        ensures
            r@.len() == self.ids@.len(),
            forall|i: int|
                0 <= i < r@.len() ==> (#[trigger] r@[i]).id_spec() == self.ids@[i].id_spec(),
    {
        let mut out: Vec<I> = Vec::new();
        let mut i: usize = 0;
        while i < self.ids.len()
            invariant
                0 <= i <= self.ids@.len(),
                out@.len() == i,
                forall|k: int|
                    0 <= k < i ==> (#[trigger] out@[k]).id_spec() == self.ids@[k].id_spec(),
            decreases self.ids@.len() - i,
        {
            out.push(self.ids[i].dup_id());
            i += 1;
        }
        out
    }

    /// This party's identifier.
    pub fn party(&self) -> (r: I)
        ensures
            r.id_spec() == self.id.id_spec(),
    {
        self.id.dup_id()
    }

    /// The aggregate verifying key: the index-ordered fold of every
    /// party's public share.
    pub open spec fn vkey_rep(&self) -> Seq<u8> {
        crate::group::pt_fold(
            self.publics@[0].x.rep(),
            crate::group::point_reps(
                self.publics@.skip(1).map_values(|p: KeySharePublic| p.x),
            ),
        )
    }

    /// The aggregate verifying key `X = sum of X_j`, as a curve point.
    pub fn verifying_key(&self) -> (r: Point)
        requires
            self.wf(),
        ensures
            r.wf(),
            r.rep() == self.vkey_rep(),
    {
        let v = self.vectorized();
        let r = v.verifying_key_as_point();
        proof {
            assert(crate::group::point_reps(
                v.public@.skip(1).map_values(|p: KeySharePublic| p.x),
            ) =~= crate::group::point_reps(
                self.publics@.skip(1).map_values(|p: KeySharePublic| p.x),
            ));
        }
        r
    }

    /// The index-addressed form the protocol rounds work on.
    pub fn vectorized(&self) -> (r: KeyShareVectorized)
        requires
            self.wf(),
        ensures
            r.wf(self.ids@.len() as int, self.index as int),
            r.public@.len() == self.publics@.len(),
            forall|k: int|
                0 <= k < self.publics@.len() ==> (#[trigger] r.public@[k]).x.rep()
                    == self.publics@[k].x.rep() && r.public@[k].paillier_pk.n_val()
                    == self.publics@[k].paillier_pk.n_val(),
            r.secret.secret_share.val() == self.secret.secret_share.val(),
    {
        let mut public: Vec<KeySharePublic> = Vec::new();
        let mut i: usize = 0;
        while i < self.publics.len()
            invariant
                self.wf(),
                0 <= i <= self.publics@.len(),
                public@.len() == i,
                forall|k: int|
                    0 <= k < i ==> {
                        &&& (#[trigger] public@[k]).x.rep() == self.publics@[k].x.rep()
                        &&& public@[k].x.wf() == self.publics@[k].x.wf()
                        &&& public@[k].paillier_pk.n_val() == self.publics@[k].paillier_pk.n_val()
                        &&& public@[k].paillier_pk.rep() == self.publics@[k].paillier_pk.rep()
                    },
            decreases self.publics@.len() - i,
        {
            let p = &self.publics[i];
            public.push(KeySharePublic { x: p.x.dup(), paillier_pk: p.paillier_pk.clone_key() });
            proof {
                assert(self.publics@[i as int].wf());
            }
            i += 1;
        }
        let secret = KeyShareSecret {
            secret_share: self.secret.secret_share.dup(),
            paillier_sk: self.secret.paillier_sk.clone_sk(),
        };
        let r = KeyShareVectorized { secret, public };
        proof {
            assert forall|i: int| 0 <= i < r.public@.len() implies (#[trigger] r.public@[i]).wf()
                by {
                assert(self.publics@[i].wf());
            }
        }
        r
    }
}

/// The result of the auxiliary-info and key-refresh protocol: the update
/// to a key share.
pub struct KeyShareChange<I> {
    pub id: I,
    pub secret_change: Scalar,
    pub public_changes: Vec<Point>,
}

/// The 32-byte prehashed message that interactive signing signs.
pub type PrehashedMessage = Vec<u8>;

/// Builds an interactive-signing session from a key share, the session's
/// 32-byte shared identifier — one value agreed by all parties of the
/// session, drawn fresh per session — and a 32-byte prehashed message.
/// Fails exactly when the identifier or the prehash is not 32 bytes.
pub fn make_interactive_signing_session<I: PartyId>(
    rng: &mut Drbg,
    session_id: &Vec<u8>,
    key_share: &KeyShare<I>,
    prehashed_message: &PrehashedMessage,
) -> (r: Result<Session, Error>)
    requires
        old(rng).wf(),
        key_share.wf(),
    ensures
        final (rng).wf(),
        match r {
            Ok(s) => {
                &&& session_id@.len() == 32
                &&& prehashed_message@.len() == 32
                &&& s.wf()
                &&& s.state_spec().stage_num() == 1
                &&& s.cache_spec().len() == 0
                &&& s.message_spec().val() == crate::bytes::be_val(prehashed_message@)
                    % crate::group::q_order()
            },
            Err(e) => {
                &&& (session_id@.len() != 32 || prehashed_message@.len() != 32)
                &&& e == Error::MyFault(MyFault::InvalidState)
            },
        },
{
    if session_id.len() != 32 || prehashed_message.len() != 32 {
        return Err(Error::MyFault(MyFault::InvalidState));
    }
    let scalar_message = Scalar::from_reduced_bytes(prehashed_message);
    let vectorized = key_share.vectorized();
    let n = key_share.ids.len();
    Ok(Session::new(rng, session_id, n, key_share.index, vectorized, scalar_message))
}

} // verus!
