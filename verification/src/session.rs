//! The per-party session driver for interactive signing.
//!
//! A session walks one party through the five message stages: the
//! ciphertext broadcast, the range proofs, the masked products, the
//! `delta` reconciliation, and the signature-share broadcast. The driver
//! serializes rounds with a one-byte stage tag, stores each incoming
//! payload in the accumulator slot of its sender exactly once, caches
//! messages that arrive one stage ahead, and rejects anything further
//! ahead or behind.

use crate::bytes::be_val;
use crate::codec::{chunks_of, copy_range};
use crate::common::ALPHA_BOUND_BYTES;
use crate::collections::{HoleVecAccum, PartyIdx};
use crate::common::{Error, KeyShareVectorized, MyFault, TheirFault};
use crate::drbg::Drbg;
use crate::group::{RecoverableSignature, Scalar};
use crate::presigning::{
    Round1Bcast, Round1Direct, Round1Part1, Round1Part2, Round2, Round2Direct, Round2Payload,
    Round3, Round3Bcast, Round3Payload, PresigningEvidence, PresigningOutcome,
};
use crate::signing::{SigningBcast, SigningContext, SigningRound};
use vstd::prelude::*;

verus! {

/// Serialized messages without the stage tag.
pub enum ToSendSerialized {
    Broadcast(Vec<u8>),
    Direct(Vec<(PartyIdx, Vec<u8>)>),
}

/// Serialized messages with the stage tag prepended.
pub enum ToSend {
    Broadcast(Vec<u8>),
    Direct(Vec<(PartyIdx, Vec<u8>)>),
}

/// The per-stage state: the round, and the accumulator once this party
/// has sent its own messages for the stage.
pub enum InteractiveSigningState {
    Stage1(Round1Part1, Option<HoleVecAccum<Round1Bcast>>),
    Stage2(Box<Round1Part2>, Option<HoleVecAccum<bool>>),
    Stage3(Round2, Option<HoleVecAccum<Round2Payload>>),
    Stage4(Round3, Option<HoleVecAccum<Round3Payload>>),
    Stage5(SigningRound, Option<HoleVecAccum<Scalar>>),
    /// The protocol completed; the session holds its result.
    Finished(RecoverableSignature),
    /// A terminal failure, with blame evidence when the delta check
    /// produced one.
    Failed(Option<PresigningEvidence>),
    /// The transient placeholder while a transition is in flight; no
    /// well-formed session is ever left in it.
    Poisoned,
}

/// The filled map of an accumulator: which slots hold a payload.
pub open spec fn filled_map<T>(acc: &HoleVecAccum<T>) -> Seq<bool> {
    acc@.map_values(|o: Option<T>| o is Some)
}

/// Whether each slot of an optional accumulator is filled.
pub open spec fn acc_filled<T>(a: &Option<HoleVecAccum<T>>) -> Option<Seq<bool>> {
    match a {
        Some(acc) => Some(filled_map(acc)),
        None => None,
    }
}

impl InteractiveSigningState {
    /// The stage this state is in, one-indexed; finished and failed
    /// states are past the last stage.
    pub open spec fn stage_num(&self) -> int {
        match self {
            InteractiveSigningState::Stage1(_, _) => 1,
            InteractiveSigningState::Stage2(_, _) => 2,
            InteractiveSigningState::Stage3(_, _) => 3,
            InteractiveSigningState::Stage4(_, _) => 4,
            InteractiveSigningState::Stage5(_, _) => 5,
            InteractiveSigningState::Finished(_) => 6,
            InteractiveSigningState::Failed(_) => 6,
            InteractiveSigningState::Poisoned => 0,
        }
    }

    /// Which sender slots are filled, when the stage is receiving.
    pub open spec fn filled(&self) -> Option<Seq<bool>> {
        match self {
            InteractiveSigningState::Stage1(_, a) => acc_filled(a),
            InteractiveSigningState::Stage2(_, a) => acc_filled(a),
            InteractiveSigningState::Stage3(_, a) => acc_filled(a),
            InteractiveSigningState::Stage4(_, a) => acc_filled(a),
            InteractiveSigningState::Stage5(_, a) => acc_filled(a),
            _ => None,
        }
    }

    /// Structural well-formedness for a protocol of `n` parties with this
    /// party at `me`.
    pub open spec fn wf(&self, n: int, me: int) -> bool {
        &&& match self {
            InteractiveSigningState::Stage1(r, a) => r.wf() && r.context.num_parties == n
                && r.context.my_idx == me && acc_wf(a, n, me) && acc_all_ok(
                a,
                |p: Round1Bcast| p.encodable(),
            ),
            InteractiveSigningState::Stage2(r, a) => r.wf() && r.context.num_parties == n
                && r.context.my_idx == me && acc_wf(a, n, me),
            InteractiveSigningState::Stage3(r, a) => r.wf() && r.context.num_parties == n
                && r.context.my_idx == me && acc_wf(a, n, me) && acc_all_ok(
                a,
                |p: Round2Payload| p.wf(),
            ),
            InteractiveSigningState::Stage4(r, a) => r.wf() && r.context.num_parties == n
                && r.context.my_idx == me && acc_wf(a, n, me) && acc_all_ok(
                a,
                |p: Round3Payload| p.wf(),
            ),
            InteractiveSigningState::Stage5(r, a) => r.wf() && r.num_parties == n && r.my_idx == me
                && acc_wf(a, n, me) && acc_all_ok(a, |p: Scalar| p.wf()),
            InteractiveSigningState::Finished(sig) => sig.wf(),
            InteractiveSigningState::Failed(_) => true,
            InteractiveSigningState::Poisoned => false,
        }
    }
}

/// Whether the current stage accepts a message body from the given
/// sender: the body decodes as the stage's message and every check of the
/// stage's verifier passes, stated over the body's chunk values.
pub open spec fn current_accepts(state: &InteractiveSigningState, from: int, body: Seq<u8>) -> bool {
    match state {
        InteractiveSigningState::Stage1(_, _) => crate::presigning::round1_bcast_decodes(body),
        InteractiveSigningState::Stage2(r, _) => {
            let cs = chunks_of(body).unwrap();
            &&& crate::presigning::round1_direct_decodes(body)
            &&& be_val(cs[0]) == r.context.key_share.public@[from].paillier_pk.n_val()
            &&& cs[1] == crate::sigma::enc_binding(
                r.context.key_share.public@[from].paillier_pk.rep(),
                r.k_ciphertexts@[from].rep(),
                r.context.shared_randomness@,
                from as nat,
            )
        },
        InteractiveSigningState::Stage3(r, _) => {
            let cs = chunks_of(body).unwrap();
            let me = r.context.my_idx as int;
            &&& crate::presigning::round2_direct_decodes(body)
            &&& be_val(cs[5]) == r.context.own_modulus()
            &&& be_val(cs[6]) == r.context.key_share.public@[from].paillier_pk.n_val()
            &&& cs[7] == crate::sigma::affg_binding(
                r.context.key_share.public@[me].paillier_pk.rep(),
                r.context.key_share.public@[from].paillier_pk.rep(),
                r.k_ciphertexts@[me].rep(),
                cs[1],
                cs[3],
                cs[0],
                r.context.shared_randomness@,
                from as nat,
            )
            &&& be_val(cs[8]) == r.context.own_modulus()
            &&& be_val(cs[9]) == r.context.key_share.public@[from].paillier_pk.n_val()
            &&& cs[10] == crate::sigma::affg_binding(
                r.context.key_share.public@[me].paillier_pk.rep(),
                r.context.key_share.public@[from].paillier_pk.rep(),
                r.k_ciphertexts@[me].rep(),
                cs[2],
                cs[4],
                r.context.key_share.public@[from].x.rep(),
                r.context.shared_randomness@,
                from as nat,
            )
            &&& be_val(cs[11]) == r.context.key_share.public@[from].paillier_pk.n_val()
            &&& cs[12] == crate::sigma::log_star_binding(
                r.context.key_share.public@[from].paillier_pk.rep(),
                r.g_ciphertexts@[from].rep(),
                crate::group::point_of(1),
                cs[0],
                r.context.shared_randomness@,
                from as nat,
            )
            &&& crate::presigning::abs_of(r.my_decryption(be_val(cs[1]))) < crate::bytes::pow256(
                ALPHA_BOUND_BYTES as nat,
            )
        },
        InteractiveSigningState::Stage4(r, _) => {
            let cs = chunks_of(body).unwrap();
            &&& crate::presigning::round3_bcast_decodes(body)
            &&& be_val(cs[2]) == r.context.key_share.public@[from].paillier_pk.n_val()
            &&& cs[3] == crate::sigma::log_star_binding(
                r.context.key_share.public@[from].paillier_pk.rep(),
                r.k_ciphertexts@[from].rep(),
                r.big_gamma.rep(),
                cs[1],
                r.context.shared_randomness@,
                from as nat,
            )
        },
        InteractiveSigningState::Stage5(_, _) => crate::signing::signing_bcast_decodes(body),
        _ => false,
    }
}

/// An optional accumulator is for the right geometry.
pub open spec fn acc_wf<T>(a: &Option<HoleVecAccum<T>>, n: int, me: int) -> bool {
    match a {
        Some(acc) => acc.wf() && acc@.len() == n && acc.hole_idx() == me,
        None => true,
    }
}

/// Every filled slot of an optional accumulator satisfies a property.
pub open spec fn acc_all_ok<T>(a: &Option<HoleVecAccum<T>>, ok: spec_fn(T) -> bool) -> bool {
    match a {
        Some(acc) => forall|i: int|
            0 <= i < acc@.len() && (#[trigger] acc@[i]) is Some ==> ok(acc@[i].unwrap()),
        None => true,
    }
}

/// A per-party session for interactive signing.
pub struct Session {
    index: usize,
    num_parties: usize,
    message: Scalar,
    next_stage_messages: Vec<(PartyIdx, Vec<u8>)>,
    state: InteractiveSigningState,
}

impl Session {
    pub open spec fn wf(&self) -> bool {
        &&& self.state_spec().wf(self.n_spec(), self.idx_spec())
        &&& self.n_spec() >= 2
        &&& 0 <= self.idx_spec() < self.n_spec()
        &&& self.message_spec().wf()
    }

    pub closed spec fn state_spec(&self) -> InteractiveSigningState {
        self.state
    }

    pub closed spec fn n_spec(&self) -> int {
        self.num_parties as int
    }

    pub closed spec fn idx_spec(&self) -> int {
        self.index as int
    }

    pub closed spec fn message_spec(&self) -> Scalar {
        self.message
    }

    /// The cached one-stage-ahead messages, most recent last.
    pub closed spec fn cache_spec(&self) -> Seq<(PartyIdx, Vec<u8>)> {
        self.next_stage_messages@
    }

    /// The current stage, one-indexed.
    pub fn current_stage_num(&self) -> (r: u8)
        requires
            self.wf(),
        ensures
            r == self.state_spec().stage_num(),
    {
        match &self.state {
            InteractiveSigningState::Stage1(_, _) => 1,
            InteractiveSigningState::Stage2(_, _) => 2,
            InteractiveSigningState::Stage3(_, _) => 3,
            InteractiveSigningState::Stage4(_, _) => 4,
            InteractiveSigningState::Stage5(_, _) => 5,
            InteractiveSigningState::Finished(_) => 6,
            InteractiveSigningState::Failed(_) => 6,
            InteractiveSigningState::Poisoned => {
                proof {
                    assert(false);
                }
                0
            },
        }
    }

    /// The number of message stages.
    pub fn stages_num(&self) -> (r: u8)
        ensures
            r == 5,
    {
        5
    }

    /// Whether the protocol has produced its result.
    pub fn is_final_stage(&self) -> (r: bool)
        ensures
            r == (self.state_spec() is Finished),
    {
        match &self.state {
            InteractiveSigningState::Finished(_) => true,
            _ => false,
        }
    }

    /// Whether messages for the next stage have been cached.
    pub fn has_cached_messages(&self) -> (r: bool)
        ensures
            r == (self.cache_spec().len() > 0),
    {
        self.next_stage_messages.len() > 0
    }

    /// The protocol result, once the final stage has finalized.
    pub fn result(&self) -> (r: Result<RecoverableSignature, Error>)
        requires
            self.wf(),
        ensures
            match r {
                Ok(sig) => {
                    &&& sig.wf()
                    &&& match self.state_spec() {
                        InteractiveSigningState::Finished(held) => {
                            &&& sig.sig_spec().r_val() == held.sig_spec().r_val()
                            &&& sig.sig_spec().s_val() == held.sig_spec().s_val()
                            &&& sig.sig_spec().wire() == held.sig_spec().wire()
                            &&& sig.recovery_spec() == held.recovery_spec()
                        },
                        _ => false,
                    }
                },
                Err(_) => !(self.state_spec() is Finished),
            },
    {
        match &self.state {
            InteractiveSigningState::Finished(sig) => Ok(sig.dup()),
            _ => Err(Error::MyFault(MyFault::InvalidState)),
        }
    }

    /// Starts a session: draws the presigning secrets and stands at stage
    /// one, in sending state, with nothing cached.
    pub fn new(
        rng: &mut Drbg,
        session_id: &Vec<u8>,
        num_parties: usize,
        index: usize,
        key_share: KeyShareVectorized,
        message: Scalar,
    ) -> (r: Session)
        requires
            old(rng).wf(),
            key_share.wf(num_parties as int, index as int),
            2 <= num_parties <= 0xffffffff,
            session_id@.len() == 32,
            message.wf(),
        ensures
            final (rng).wf(),
            r.wf(),
            r.state_spec().stage_num() == 1,
            r.state_spec().filled() is None,
            r.cache_spec().len() == 0,
            r.message_spec() == message,
    {
        let mut sid: Vec<u8> = Vec::new();
        let mut i: usize = 0;
        while i < session_id.len()
            invariant
                0 <= i <= session_id@.len(),
                sid@ == session_id@.take(i as int),
            decreases session_id@.len() - i,
        {
            let b = session_id[i];
            sid.push(b);
            assert(sid@ =~= session_id@.take(i + 1));
            i += 1;
        }
        proof {
            assert(sid@ =~= session_id@);
        }
        let round = Round1Part1::new(rng, sid, num_parties, index, key_share);
        Session {
            index,
            num_parties,
            message,
            next_stage_messages: Vec::new(),
            state: InteractiveSigningState::Stage1(round, None),
        }
    }

    /// Emits this stage's outgoing messages, tagged with the stage
    /// number, and switches the stage into its receiving state. Fails
    /// exactly when the stage is already receiving or the protocol is
    /// over.
    pub fn get_messages(&mut self, rng: &mut Drbg) -> (r: Result<ToSend, Error>)
        requires
            old(self).wf(),
            old(rng).wf(),
        ensures
            final (rng).wf(),
            final (self).wf(),
            match r {
                Ok(ts) => {
                    &&& old(self).state_spec().filled() is None
                    &&& old(self).state_spec().stage_num() <= 5
                    &&& final (self).state_spec().stage_num() == old(self).state_spec().stage_num()
                    &&& final (self).state_spec().filled() == Some(
                        Seq::new(old(self).n_spec() as nat, |i: int| false),
                    )
                    &&& final (self).cache_spec() == old(self).cache_spec()
                    &&& match ts {
                        // Stages one and five broadcast; the wire bytes are
                        // the stage tag followed by the message chunks.
                        ToSend::Broadcast(b) => match old(self).state_spec() {
                            InteractiveSigningState::Stage1(r1, _) => b@ == seq![1u8]
                                + crate::codec::concat_framed(
                                seq![r1.k_ciphertext.rep(), r1.g_ciphertext.rep()],
                            ),
                            InteractiveSigningState::Stage5(r5, _) => b@ == seq![5u8]
                                + crate::codec::concat_framed(seq![r5.sigma.rep()]),
                            _ => false,
                        },
                        // The other stages send one message per other
                        // party: the stage tag followed by the framed
                        // chunks of that round's message.
                        ToSend::Direct(pairs) => {
                            &&& pairs@.len() == old(self).n_spec() - 1
                            &&& forall|u: int|
                                0 <= u < pairs@.len() ==> (#[trigger] pairs@[u]).0.spec_idx()
                                    == crate::presigning::other_idx(old(self).idx_spec(), u)
                            &&& match old(self).state_spec() {
                                InteractiveSigningState::Stage2(r2, _) => forall|u: int|
                                    0 <= u < pairs@.len() ==> (#[trigger] pairs@[u]).1@ == seq![
                                        2u8,
                                    ] + crate::codec::concat_framed(
                                        seq![
                                            r2.context.key_share.public@[old(
                                                self,
                                            ).idx_spec()].paillier_pk.rep(),
                                            crate::sigma::enc_binding(
                                                r2.context.key_share.public@[old(
                                                    self,
                                                ).idx_spec()].paillier_pk.rep(),
                                                r2.k_ciphertexts@[old(self).idx_spec()].rep(),
                                                r2.context.shared_randomness@,
                                                old(self).idx_spec() as nat,
                                            ),
                                        ],
                                    ),
                                InteractiveSigningState::Stage3(r3, _) => forall|u: int|
                                    0 <= u < pairs@.len() ==> (#[trigger] pairs@[u]).1@ == seq![
                                        3u8,
                                    ] + crate::codec::concat_framed(r3.msgs@[u].chunks()),
                                InteractiveSigningState::Stage4(r4, _) => forall|u: int|
                                    0 <= u < pairs@.len() ==> (#[trigger] pairs@[u]).1@ == seq![
                                        4u8,
                                    ] + crate::codec::concat_framed(
                                        seq![
                                            r4.delta.rep(),
                                            r4.big_delta.rep(),
                                            r4.context.key_share.public@[old(
                                                self,
                                            ).idx_spec()].paillier_pk.rep(),
                                            crate::sigma::log_star_binding(
                                                r4.context.key_share.public@[old(
                                                    self,
                                                ).idx_spec()].paillier_pk.rep(),
                                                r4.k_ciphertexts@[old(self).idx_spec()].rep(),
                                                r4.big_gamma.rep(),
                                                r4.big_delta.rep(),
                                                r4.context.shared_randomness@,
                                                old(self).idx_spec() as nat,
                                            ),
                                        ],
                                    ),
                                _ => false,
                            }
                        },
                    }
                },
                Err(e) => {
                    &&& *final (self) == *old(self)
                    &&& e == Error::MyFault(MyFault::InvalidState)
                    &&& (old(self).state_spec().filled() is Some || old(
                        self,
                    ).state_spec().stage_num() > 5)
                },
            },
    {
        let n = self.num_parties;
        let me = self.index;
        let mut st = InteractiveSigningState::Poisoned;
        core::mem::swap(&mut st, &mut self.state);
        match st {
            InteractiveSigningState::Stage1(round, accum) => {
                if accum.is_some() {
                    self.state = InteractiveSigningState::Stage1(round, accum);
                    return Err(Error::MyFault(MyFault::InvalidState));
                }
                let msg = round.to_send();
                proof {
                    assert(msg.encodable());
                    assert(msg.chunks() =~= seq![
                        round.k_ciphertext.rep(),
                        round.g_ciphertext.rep(),
                    ]);
                }
                let body = msg.to_bytes();
                let tagged = tag_message(1, &body);
                let acc = HoleVecAccum::<Round1Bcast>::new(n, me);
                proof {
                    filled_all_false(&acc, n as int);
                }
                self.state = InteractiveSigningState::Stage1(round, Some(acc));
                Ok(ToSend::Broadcast(tagged))
            },
            InteractiveSigningState::Stage2(round, accum) => {
                if accum.is_some() {
                    self.state = InteractiveSigningState::Stage2(round, accum);
                    return Err(Error::MyFault(MyFault::InvalidState));
                }
                let msgs = round.to_send();
                let ghost wire2 = seq![
                    round.context.key_share.public@[me as int].paillier_pk.rep(),
                    crate::sigma::enc_binding(
                        round.context.key_share.public@[me as int].paillier_pk.rep(),
                        round.k_ciphertexts@[me as int].rep(),
                        round.context.shared_randomness@,
                        me as nat,
                    ),
                ];
                let mut out: Vec<(PartyIdx, Vec<u8>)> = Vec::new();
                let mut k: usize = 0;
                while k < msgs.len()
                    invariant
                        0 <= k <= msgs@.len(),
                        out@.len() == k,
                        forall|u: int|
                            0 <= u < msgs@.len() ==> (#[trigger] msgs@[u]).1.encodable()
                                && msgs@[u].1.chunks() == wire2,
                        forall|u: int|
                            0 <= u < k ==> (#[trigger] out@[u]).0 == msgs@[u].0,
                        forall|u: int|
                            0 <= u < k ==> (#[trigger] out@[u]).1@ == seq![2u8]
                                + crate::codec::concat_framed(wire2),
                    decreases msgs@.len() - k,
                {
                    let body = msgs[k].1.to_bytes();
                    let tagged = tag_message(2, &body);
                    out.push((msgs[k].0, tagged));
                    k += 1;
                }
                let acc = HoleVecAccum::<bool>::new(n, me);
                proof {
                    filled_all_false(&acc, n as int);
                }
                self.state = InteractiveSigningState::Stage2(round, Some(acc));
                Ok(ToSend::Direct(out))
            },
            InteractiveSigningState::Stage3(round, accum) => {
                if accum.is_some() {
                    self.state = InteractiveSigningState::Stage3(round, accum);
                    return Err(Error::MyFault(MyFault::InvalidState));
                }
                let msgs = round.to_send();
                let mut out: Vec<(PartyIdx, Vec<u8>)> = Vec::new();
                let mut k: usize = 0;
                while k < msgs.len()
                    invariant
                        round.wf(),
                        msgs@.len() == round.msgs@.len(),
                        0 <= k <= msgs@.len(),
                        out@.len() == k,
                        forall|u: int|
                            0 <= u < msgs@.len() ==> (#[trigger] msgs@[u]).1.encodable()
                                && msgs@[u].1.chunks() == round.msgs@[u].chunks(),
                        forall|u: int|
                            0 <= u < k ==> (#[trigger] out@[u]).0 == msgs@[u].0,
                        forall|u: int|
                            0 <= u < k ==> (#[trigger] out@[u]).1@ == seq![3u8]
                                + crate::codec::concat_framed(round.msgs@[u].chunks()),
                    decreases msgs@.len() - k,
                {
                    let body = msgs[k].1.to_bytes();
                    let tagged = tag_message(3, &body);
                    out.push((msgs[k].0, tagged));
                    k += 1;
                }
                let acc = HoleVecAccum::<Round2Payload>::new(n, me);
                proof {
                    filled_all_false(&acc, n as int);
                }
                self.state = InteractiveSigningState::Stage3(round, Some(acc));
                Ok(ToSend::Direct(out))
            },
            InteractiveSigningState::Stage4(round, accum) => {
                if accum.is_some() {
                    self.state = InteractiveSigningState::Stage4(round, accum);
                    return Err(Error::MyFault(MyFault::InvalidState));
                }
                let msgs = round.to_send();
                let ghost wire4 = seq![
                    round.delta.rep(),
                    round.big_delta.rep(),
                    round.context.key_share.public@[me as int].paillier_pk.rep(),
                    crate::sigma::log_star_binding(
                        round.context.key_share.public@[me as int].paillier_pk.rep(),
                        round.k_ciphertexts@[me as int].rep(),
                        round.big_gamma.rep(),
                        round.big_delta.rep(),
                        round.context.shared_randomness@,
                        me as nat,
                    ),
                ];
                let mut out: Vec<(PartyIdx, Vec<u8>)> = Vec::new();
                let mut k: usize = 0;
                while k < msgs.len()
                    invariant
                        0 <= k <= msgs@.len(),
                        out@.len() == k,
                        forall|u: int|
                            0 <= u < msgs@.len() ==> (#[trigger] msgs@[u]).1.encodable()
                                && msgs@[u].1.delta.wf() && msgs@[u].1.chunks() == wire4,
                        forall|u: int|
                            0 <= u < k ==> (#[trigger] out@[u]).0 == msgs@[u].0,
                        forall|u: int|
                            0 <= u < k ==> (#[trigger] out@[u]).1@ == seq![4u8]
                                + crate::codec::concat_framed(wire4),
                    decreases msgs@.len() - k,
                {
                    let body = msgs[k].1.to_bytes();
                    let tagged = tag_message(4, &body);
                    out.push((msgs[k].0, tagged));
                    k += 1;
                }
                let acc = HoleVecAccum::<Round3Payload>::new(n, me);
                proof {
                    filled_all_false(&acc, n as int);
                }
                self.state = InteractiveSigningState::Stage4(round, Some(acc));
                Ok(ToSend::Direct(out))
            },
            InteractiveSigningState::Stage5(round, accum) => {
                if accum.is_some() {
                    self.state = InteractiveSigningState::Stage5(round, accum);
                    return Err(Error::MyFault(MyFault::InvalidState));
                }
                let msg = round.to_send();
                proof {
                    assert(msg.chunks() =~= seq![round.sigma.rep()]);
                }
                let body = msg.to_bytes();
                let tagged = tag_message(5, &body);
                let acc = HoleVecAccum::<Scalar>::new(n, me);
                proof {
                    filled_all_false(&acc, n as int);
                }
                self.state = InteractiveSigningState::Stage5(round, Some(acc));
                Ok(ToSend::Broadcast(tagged))
            },
            other => {
                self.state = other;
                Err(Error::MyFault(MyFault::InvalidState))
            },
        }
    }

    /// Routes an incoming message by its stage tag: the current stage is
    /// delivered, the next stage is cached, anything else is rejected as
    /// out of order; a malformed frame is the sender's fault.
    pub fn receive(&mut self, from: PartyIdx, message_bytes: &Vec<u8>) -> (r: Result<(), Error>)
        requires
            old(self).wf(),
        ensures
            final (self).wf(),
            ({
                let cur = old(self).state_spec().stage_num();
                if message_bytes@.len() == 0 {
                    &&& r == Result::<(), Error>::Err(
                        Error::TheirFault {
                            party: from,
                            error: TheirFault::DeserializationError,
                        },
                    )
                    &&& *final (self) == *old(self)
                } else {
                    let tag = message_bytes@[0] as int;
                    if tag == cur + 1 && tag <= 5 {
                        // One stage ahead: the sender and the untagged body
                        // are cached, nothing else changes.
                        &&& r is Ok
                        &&& final (self).cache_spec().len() == old(self).cache_spec().len() + 1
                        &&& final (self).cache_spec().take(old(self).cache_spec().len() as int)
                            == old(self).cache_spec()
                        &&& final (self).cache_spec().last().0 == from
                        &&& final (self).cache_spec().last().1@ == message_bytes@.skip(1)
                        &&& final (self).state_spec() == old(self).state_spec()
                    } else if tag == cur {
                        final (self).receive_current_post(
                            old(self).state_spec(),
                            old(self).cache_spec(),
                            old(self).message_spec(),
                            from,
                            message_bytes@.skip(1),
                            r,
                        )
                    } else {
                        // Two or more stages ahead, or behind: rejected.
                        &&& r == Result::<(), Error>::Err(
                            Error::TheirFault {
                                party: from,
                                error: TheirFault::OutOfOrderMessage {
                                    current_stage: cur as u8,
                                    message_stage: tag as u8,
                                },
                            },
                        )
                        &&& *final (self) == *old(self)
                    }
                }
            }),
    {
        let cur = self.current_stage_num();
        if message_bytes.len() == 0 {
            return Err(Error::TheirFault { party: from, error: TheirFault::DeserializationError });
        }
        let tag = message_bytes[0];
        let body = copy_range(message_bytes, 1, message_bytes.len());
        proof {
            assert(body@ =~= message_bytes@.skip(1));
        }
        if tag == cur + 1 && tag <= 5 {
            let ghost pre = self.next_stage_messages@;
            self.next_stage_messages.push((from, body));
            proof {
                assert(self.next_stage_messages@.take(pre.len() as int) =~= pre);
            }
            Ok(())
        } else if tag == cur {
            self.receive_current_stage(from, &body)
        } else {
            Err(
                Error::TheirFault {
                    party: from,
                    error: TheirFault::OutOfOrderMessage {
                        current_stage: cur,
                        message_stage: tag,
                    },
                },
            )
        }
    }

    /// What receiving a current-stage message guarantees: the slot is
    /// written exactly when the sender is valid, the slot is empty and
    /// the stage accepts the body; a duplicate is rejected with the
    /// sender blamed; and every failure leaves the session exactly as it
    /// was.
    pub open spec fn receive_current_post(
        &self,
        pre_state: InteractiveSigningState,
        pre_cache: Seq<(PartyIdx, Vec<u8>)>,
        pre_message: Scalar,
        from: PartyIdx,
        body: Seq<u8>,
        r: Result<(), Error>,
    ) -> bool {
        &&& (r is Ok <==> (pre_state.filled() is Some && 0 <= from.spec_idx() < self.n_spec()
            && from.spec_idx() != self.idx_spec() && pre_state.filled().unwrap()[from.spec_idx()]
            == false && current_accepts(&pre_state, from.spec_idx(), body)))
        &&& match r {
            Ok(_) => {
                &&& self.state_spec().filled() == Some(
                    pre_state.filled().unwrap().update(from.spec_idx(), true),
                )
                &&& self.state_spec().stage_num() == pre_state.stage_num()
                &&& self.cache_spec() == pre_cache
                &&& self.message_spec() == pre_message
            },
            Err(e) => {
                &&& self.state_spec() == pre_state
                &&& self.cache_spec() == pre_cache
                &&& self.message_spec() == pre_message
                &&& (e == Error::TheirFault {
                    party: from,
                    error: TheirFault::DuplicateMessage,
                } <==> (pre_state.filled() is Some && 0 <= from.spec_idx() < self.n_spec()
                    && from.spec_idx() != self.idx_spec() && pre_state.filled().unwrap()[
                    from.spec_idx()] == true))
            },
        }
    }

    /// Delivers a message of the current stage: decodes it, lets the
    /// round verify it, and stores the payload in the sender's slot.
    pub fn receive_current_stage(&mut self, from: PartyIdx, body: &Vec<u8>) -> (r: Result<
        (),
        Error,
    >)
        requires
            old(self).wf(),
        ensures
            final (self).wf(),
            final (self).n_spec() == old(self).n_spec(),
            final (self).idx_spec() == old(self).idx_spec(),
            final (self).receive_current_post(
                old(self).state_spec(),
                old(self).cache_spec(),
                old(self).message_spec(),
                from,
                body@,
                r,
            ),
    {
        let n = self.num_parties;
        let me = self.index;
        let mut st = InteractiveSigningState::Poisoned;
        core::mem::swap(&mut st, &mut self.state);
        match st {
            InteractiveSigningState::Stage1(round, accum_opt) => {
                let mut acc = match accum_opt {
                    Some(a) => a,
                    None => {
                        self.state = InteractiveSigningState::Stage1(round, None);
                        return Err(Error::MyFault(MyFault::InvalidState));
                    },
                };
                let fidx = from.as_usize();
                if fidx >= n || fidx == me {
                    self.state = InteractiveSigningState::Stage1(round, Some(acc));
                    return Err(Error::MyFault(MyFault::InvalidId));
                }
                if acc.is_filled(fidx) {
                    self.state = InteractiveSigningState::Stage1(round, Some(acc));
                    return Err(
                        Error::TheirFault { party: from, error: TheirFault::DuplicateMessage },
                    );
                }
                let msg = match Round1Bcast::from_bytes(body) {
                    Some(m) => m,
                    None => {
                        self.state = InteractiveSigningState::Stage1(round, Some(acc));
                        return Err(
                            Error::TheirFault {
                                party: from,
                                error: TheirFault::DeserializationError,
                            },
                        );
                    },
                };
                let payload = match round.verify_received(from, msg) {
                    Ok(p) => p,
                    Err(e) => {
                        self.state = InteractiveSigningState::Stage1(round, Some(acc));
                        return Err(e);
                    },
                };
                let ghost pre_acc = acc@;
                acc.insert(fidx, payload);
                proof {
                    filled_update(pre_acc, acc@, fidx as int);
                }
                self.state = InteractiveSigningState::Stage1(round, Some(acc));
                Ok(())
            },
            InteractiveSigningState::Stage2(round, accum_opt) => {
                let mut acc = match accum_opt {
                    Some(a) => a,
                    None => {
                        self.state = InteractiveSigningState::Stage2(round, None);
                        return Err(Error::MyFault(MyFault::InvalidState));
                    },
                };
                let fidx = from.as_usize();
                if fidx >= n || fidx == me {
                    self.state = InteractiveSigningState::Stage2(round, Some(acc));
                    return Err(Error::MyFault(MyFault::InvalidId));
                }
                if acc.is_filled(fidx) {
                    self.state = InteractiveSigningState::Stage2(round, Some(acc));
                    return Err(
                        Error::TheirFault { party: from, error: TheirFault::DuplicateMessage },
                    );
                }
                let msg = match Round1Direct::from_bytes(body) {
                    Some(m) => m,
                    None => {
                        self.state = InteractiveSigningState::Stage2(round, Some(acc));
                        return Err(
                            Error::TheirFault {
                                party: from,
                                error: TheirFault::DeserializationError,
                            },
                        );
                    },
                };
                proof {
                    let cs = chunks_of(body@).unwrap();
                    assert(cs == msg.chunks());
                    assert(cs[0] == msg.0.pk.rep());
                    assert(cs[1] == msg.0.binding@);
                }
                let payload = match round.verify_received(from, msg) {
                    Ok(p) => p,
                    Err(e) => {
                        self.state = InteractiveSigningState::Stage2(round, Some(acc));
                        return Err(e);
                    },
                };
                let ghost pre_acc = acc@;
                acc.insert(fidx, payload);
                proof {
                    filled_update(pre_acc, acc@, fidx as int);
                }
                self.state = InteractiveSigningState::Stage2(round, Some(acc));
                Ok(())
            },
            InteractiveSigningState::Stage3(round, accum_opt) => {
                let mut acc = match accum_opt {
                    Some(a) => a,
                    None => {
                        self.state = InteractiveSigningState::Stage3(round, None);
                        return Err(Error::MyFault(MyFault::InvalidState));
                    },
                };
                let fidx = from.as_usize();
                if fidx >= n || fidx == me {
                    self.state = InteractiveSigningState::Stage3(round, Some(acc));
                    return Err(Error::MyFault(MyFault::InvalidId));
                }
                if acc.is_filled(fidx) {
                    self.state = InteractiveSigningState::Stage3(round, Some(acc));
                    return Err(
                        Error::TheirFault { party: from, error: TheirFault::DuplicateMessage },
                    );
                }
                let msg = match Round2Direct::from_bytes(body) {
                    Some(m) => m,
                    None => {
                        self.state = InteractiveSigningState::Stage3(round, Some(acc));
                        return Err(
                            Error::TheirFault {
                                party: from,
                                error: TheirFault::DeserializationError,
                            },
                        );
                    },
                };
                proof {
                    let cs = chunks_of(body@).unwrap();
                    assert(cs == msg.chunks());
                    assert(cs[0] == msg.gamma.rep());
                    assert(cs[1] == msg.d.rep());
                    assert(cs[2] == msg.d_hat.rep());
                    assert(cs[3] == msg.f.rep());
                    assert(cs[4] == msg.f_hat.rep());
                    assert(cs[5] == msg.psi.pk0.rep());
                    assert(cs[6] == msg.psi.pk1.rep());
                    assert(cs[7] == msg.psi.binding@);
                    assert(cs[8] == msg.psi_hat.pk0.rep());
                    assert(cs[9] == msg.psi_hat.pk1.rep());
                    assert(cs[10] == msg.psi_hat.binding@);
                    assert(cs[11] == msg.psi_hat_prime.pk.rep());
                    assert(cs[12] == msg.psi_hat_prime.binding@);
                }
                let payload = match round.verify_received(from, msg) {
                    Ok(p) => p,
                    Err(e) => {
                        self.state = InteractiveSigningState::Stage3(round, Some(acc));
                        return Err(e);
                    },
                };
                let ghost pre_acc = acc@;
                acc.insert(fidx, payload);
                proof {
                    filled_update(pre_acc, acc@, fidx as int);
                }
                self.state = InteractiveSigningState::Stage3(round, Some(acc));
                Ok(())
            },
            InteractiveSigningState::Stage4(round, accum_opt) => {
                let mut acc = match accum_opt {
                    Some(a) => a,
                    None => {
                        self.state = InteractiveSigningState::Stage4(round, None);
                        return Err(Error::MyFault(MyFault::InvalidState));
                    },
                };
                let fidx = from.as_usize();
                if fidx >= n || fidx == me {
                    self.state = InteractiveSigningState::Stage4(round, Some(acc));
                    return Err(Error::MyFault(MyFault::InvalidId));
                }
                if acc.is_filled(fidx) {
                    self.state = InteractiveSigningState::Stage4(round, Some(acc));
                    return Err(
                        Error::TheirFault { party: from, error: TheirFault::DuplicateMessage },
                    );
                }
                let msg = match Round3Bcast::from_bytes(body) {
                    Some(m) => m,
                    None => {
                        self.state = InteractiveSigningState::Stage4(round, Some(acc));
                        return Err(
                            Error::TheirFault {
                                party: from,
                                error: TheirFault::DeserializationError,
                            },
                        );
                    },
                };
                proof {
                    let cs = chunks_of(body@).unwrap();
                    assert(cs == msg.chunks());
                    assert(cs[0] == msg.delta.rep());
                    assert(cs[1] == msg.big_delta.rep());
                    assert(cs[2] == msg.psi_hat_pprime.pk.rep());
                    assert(cs[3] == msg.psi_hat_pprime.binding@);
                }
                let payload = match round.verify_received(from, msg) {
                    Ok(p) => p,
                    Err(e) => {
                        self.state = InteractiveSigningState::Stage4(round, Some(acc));
                        return Err(e);
                    },
                };
                let ghost pre_acc = acc@;
                acc.insert(fidx, payload);
                proof {
                    filled_update(pre_acc, acc@, fidx as int);
                }
                self.state = InteractiveSigningState::Stage4(round, Some(acc));
                Ok(())
            },
            InteractiveSigningState::Stage5(round, accum_opt) => {
                let mut acc = match accum_opt {
                    Some(a) => a,
                    None => {
                        self.state = InteractiveSigningState::Stage5(round, None);
                        return Err(Error::MyFault(MyFault::InvalidState));
                    },
                };
                let fidx = from.as_usize();
                if fidx >= n || fidx == me {
                    self.state = InteractiveSigningState::Stage5(round, Some(acc));
                    return Err(Error::MyFault(MyFault::InvalidId));
                }
                if acc.is_filled(fidx) {
                    self.state = InteractiveSigningState::Stage5(round, Some(acc));
                    return Err(
                        Error::TheirFault { party: from, error: TheirFault::DuplicateMessage },
                    );
                }
                let msg = match SigningBcast::from_bytes(body) {
                    Some(m) => m,
                    None => {
                        self.state = InteractiveSigningState::Stage5(round, Some(acc));
                        return Err(
                            Error::TheirFault {
                                party: from,
                                error: TheirFault::DeserializationError,
                            },
                        );
                    },
                };
                let payload = match round.verify_received(from, msg) {
                    Ok(p) => p,
                    Err(e) => {
                        self.state = InteractiveSigningState::Stage5(round, Some(acc));
                        return Err(e);
                    },
                };
                let ghost pre_acc = acc@;
                acc.insert(fidx, payload);
                proof {
                    filled_update(pre_acc, acc@, fidx as int);
                }
                self.state = InteractiveSigningState::Stage5(round, Some(acc));
                Ok(())
            },
            other => {
                self.state = other;
                Err(Error::MyFault(MyFault::InvalidState))
            },
        }
    }

    /// Removes the most recently cached next-stage message and delivers
    /// it to the current stage exactly as a current-stage receive. Fails
    /// with a local fault when nothing is cached.
    pub fn receive_cached_message(&mut self) -> (r: Result<(), Error>)
        requires
            old(self).wf(),
        ensures
            final (self).wf(),
            old(self).cache_spec().len() == 0 ==> r == Result::<(), Error>::Err(
                Error::MyFault(MyFault::InvalidState),
            ) && final (self).state_spec() == old(self).state_spec() && final (self).cache_spec()
                == old(self).cache_spec(),
            old(self).cache_spec().len() > 0 ==> final (self).receive_current_post(
                old(self).state_spec(),
                old(self).cache_spec().drop_last(),
                old(self).message_spec(),
                old(self).cache_spec().last().0,
                old(self).cache_spec().last().1@,
                r,
            ),
    {
        let popped = self.next_stage_messages.pop();
        match popped {
            Some((from, body)) => {
                proof {
                    assert(self.next_stage_messages@ =~= old(self).cache_spec().drop_last());
                }
                self.receive_current_stage(from, &body)
            },
            None => Err(Error::MyFault(MyFault::InvalidState)),
        }
    }

    /// Whether every other party's message for this stage has arrived.
    pub fn is_finished_receiving(&self) -> (r: Result<bool, Error>)
        requires
            self.wf(),
        ensures
            match r {
                Ok(b) => {
                    &&& self.state_spec().filled() is Some
                    &&& b == (forall|i: int|
                        0 <= i < self.n_spec() && i != self.idx_spec()
                            ==> self.state_spec().filled().unwrap()[i] == true)
                },
                Err(_) => self.state_spec().filled() is None,
            },
    {
        match &self.state {
            InteractiveSigningState::Stage1(_, Some(acc)) => {
                let b = acc.can_finalize();
                proof {
                    finished_bridge(acc, b, self.n_spec(), self.idx_spec());
                    assert(self.state_spec().filled() == Some(filled_map(acc)));
                    assert(b == (forall|i: int|
                        0 <= i < self.n_spec() && i != self.idx_spec()
                            ==> #[trigger] filled_map(acc)[i] == true));
                    assert(b == (forall|i: int|
                        0 <= i < self.n_spec() && i != self.idx_spec()
                            ==> self.state_spec().filled().unwrap()[i] == true)) by {
                        assert(self.state_spec().filled().unwrap() == filled_map(acc));
                        if b {
                            assert forall|i: int|
                                0 <= i < self.n_spec() && i != self.idx_spec() implies self.state_spec().filled().unwrap()[i]
                                == true by {
                                assert(filled_map(acc)[i] == true);
                            }
                        }
                    }
                }
                Ok(b)
            },
            InteractiveSigningState::Stage2(_, Some(acc)) => {
                let b = acc.can_finalize();
                proof {
                    finished_bridge(acc, b, self.n_spec(), self.idx_spec());
                    assert(self.state_spec().filled() == Some(filled_map(acc)));
                    assert(b == (forall|i: int|
                        0 <= i < self.n_spec() && i != self.idx_spec()
                            ==> #[trigger] filled_map(acc)[i] == true));
                    assert(b == (forall|i: int|
                        0 <= i < self.n_spec() && i != self.idx_spec()
                            ==> self.state_spec().filled().unwrap()[i] == true)) by {
                        assert(self.state_spec().filled().unwrap() == filled_map(acc));
                        if b {
                            assert forall|i: int|
                                0 <= i < self.n_spec() && i != self.idx_spec() implies self.state_spec().filled().unwrap()[i]
                                == true by {
                                assert(filled_map(acc)[i] == true);
                            }
                        }
                    }
                }
                Ok(b)
            },
            InteractiveSigningState::Stage3(_, Some(acc)) => {
                let b = acc.can_finalize();
                proof {
                    finished_bridge(acc, b, self.n_spec(), self.idx_spec());
                    assert(self.state_spec().filled() == Some(filled_map(acc)));
                    assert(b == (forall|i: int|
                        0 <= i < self.n_spec() && i != self.idx_spec()
                            ==> #[trigger] filled_map(acc)[i] == true));
                    assert(b == (forall|i: int|
                        0 <= i < self.n_spec() && i != self.idx_spec()
                            ==> self.state_spec().filled().unwrap()[i] == true)) by {
                        assert(self.state_spec().filled().unwrap() == filled_map(acc));
                        if b {
                            assert forall|i: int|
                                0 <= i < self.n_spec() && i != self.idx_spec() implies self.state_spec().filled().unwrap()[i]
                                == true by {
                                assert(filled_map(acc)[i] == true);
                            }
                        }
                    }
                }
                Ok(b)
            },
            InteractiveSigningState::Stage4(_, Some(acc)) => {
                let b = acc.can_finalize();
                proof {
                    finished_bridge(acc, b, self.n_spec(), self.idx_spec());
                    assert(self.state_spec().filled() == Some(filled_map(acc)));
                    assert(b == (forall|i: int|
                        0 <= i < self.n_spec() && i != self.idx_spec()
                            ==> #[trigger] filled_map(acc)[i] == true));
                    assert(b == (forall|i: int|
                        0 <= i < self.n_spec() && i != self.idx_spec()
                            ==> self.state_spec().filled().unwrap()[i] == true)) by {
                        assert(self.state_spec().filled().unwrap() == filled_map(acc));
                        if b {
                            assert forall|i: int|
                                0 <= i < self.n_spec() && i != self.idx_spec() implies self.state_spec().filled().unwrap()[i]
                                == true by {
                                assert(filled_map(acc)[i] == true);
                            }
                        }
                    }
                }
                Ok(b)
            },
            InteractiveSigningState::Stage5(_, Some(acc)) => {
                let b = acc.can_finalize();
                proof {
                    finished_bridge(acc, b, self.n_spec(), self.idx_spec());
                    assert(self.state_spec().filled() == Some(filled_map(acc)));
                    assert(b == (forall|i: int|
                        0 <= i < self.n_spec() && i != self.idx_spec()
                            ==> #[trigger] filled_map(acc)[i] == true));
                    assert(b == (forall|i: int|
                        0 <= i < self.n_spec() && i != self.idx_spec()
                            ==> self.state_spec().filled().unwrap()[i] == true)) by {
                        assert(self.state_spec().filled().unwrap() == filled_map(acc));
                        if b {
                            assert forall|i: int|
                                0 <= i < self.n_spec() && i != self.idx_spec() implies self.state_spec().filled().unwrap()[i]
                                == true by {
                                assert(filled_map(acc)[i] == true);
                            }
                        }
                    }
                }
                Ok(b)
            },
            _ => Err(Error::MyFault(MyFault::InvalidState)),
        }
    }

    /// The parties whose message for this stage is still owed: who the
    /// caller is waiting for when a timeout fires.
    pub fn missing_parties(&self) -> (r: Result<Vec<PartyIdx>, Error>)
        requires
            self.wf(),
        ensures
            match r {
                Ok(v) => {
                    &&& self.state_spec().filled() is Some
                    &&& forall|k: int|
                        0 <= k < v@.len() ==> {
                            &&& 0 <= (#[trigger] v@[k]).spec_idx() < self.n_spec()
                            &&& v@[k].spec_idx() != self.idx_spec()
                            &&& self.state_spec().filled().unwrap()[v@[k].spec_idx()] == false
                        }
                    &&& forall|i: int|
                        0 <= i < self.n_spec() && i != self.idx_spec()
                            && self.state_spec().filled().unwrap()[i] == false ==> exists|k: int|
                            0 <= k < v@.len() && (#[trigger] v@[k]).spec_idx() == i
                },
                Err(_) => self.state_spec().filled() is None,
            },
    {
        match &self.state {
            InteractiveSigningState::Stage1(_, Some(acc)) => {
                let v = acc.missing();
                proof {
                    lemma_filled_index(acc);
                }
                Ok(v)
            },
            InteractiveSigningState::Stage2(_, Some(acc)) => {
                let v = acc.missing();
                proof {
                    lemma_filled_index(acc);
                }
                Ok(v)
            },
            InteractiveSigningState::Stage3(_, Some(acc)) => {
                let v = acc.missing();
                proof {
                    lemma_filled_index(acc);
                }
                Ok(v)
            },
            InteractiveSigningState::Stage4(_, Some(acc)) => {
                let v = acc.missing();
                proof {
                    lemma_filled_index(acc);
                }
                Ok(v)
            },
            InteractiveSigningState::Stage5(_, Some(acc)) => {
                let v = acc.missing();
                proof {
                    lemma_filled_index(acc);
                }
                Ok(v)
            },
            _ => Err(Error::MyFault(MyFault::InvalidState)),
        }
    }

    /// Finalizes the current stage once every slot is filled, replacing
    /// the round with its successor; after the last stage the session
    /// holds the signature. Fails with a local fault exactly when the
    /// stage is not receiving, a slot is still empty, or the protocol is
    /// already over; with a complete accumulator the first three stages
    /// always advance, and the remaining failures are terminal protocol
    /// failures of the last two stages.
    pub fn finalize_stage(&mut self, rng: &mut Drbg) -> (r: Result<(), Error>)
        requires
            old(self).wf(),
            old(rng).wf(),
        ensures
            final (rng).wf(),
            final (self).wf(),
            ({
                let ready = old(self).state_spec().filled() is Some && (forall|i: int|
                    0 <= i < old(self).n_spec() && i != old(self).idx_spec()
                        ==> old(self).state_spec().filled().unwrap()[i] == true);
                &&& (r == Result::<(), Error>::Err(Error::MyFault(MyFault::InvalidState)) <==> !(
                ready && old(self).state_spec().stage_num() <= 5))
                &&& (ready && old(self).state_spec().stage_num() <= 3 ==> r is Ok)
                &&& match r {
                    Ok(_) => {
                        &&& old(self).state_spec().stage_num() <= 5
                        &&& (old(self).state_spec().stage_num() < 5 ==> final (
                        self).state_spec().stage_num() == old(self).state_spec().stage_num() + 1)
                        &&& (old(self).state_spec().stage_num() == 5 ==> final (
                        self).state_spec() is Finished)
                        &&& final (self).state_spec().filled() is None || final (
                        self).state_spec() is Finished
                        &&& final (self).cache_spec() == old(self).cache_spec()
                    },
                    Err(e) => {
                        &&& (e == Error::MyFault(MyFault::InvalidState) ==> final (
                        self).state_spec() == old(self).state_spec())
                        &&& (e != Error::MyFault(MyFault::InvalidState) ==> e == Error::ErrorRound
                            && final (self).state_spec() is Failed && old(
                            self,
                        ).state_spec().stage_num() >= 4)
                    },
                }
            }),
    {
        let n = self.num_parties;
        let me = self.index;
        let mut st = InteractiveSigningState::Poisoned;
        core::mem::swap(&mut st, &mut self.state);
        match st {
            InteractiveSigningState::Stage1(round, accum_opt) => {
                let acc = match accum_opt {
                    Some(a) => a,
                    None => {
                        self.state = InteractiveSigningState::Stage1(round, None);
                        return Err(Error::MyFault(MyFault::InvalidState));
                    },
                };
                let complete = acc.can_finalize();
                proof {
                    finished_bridge(&acc, complete, n as int, me as int);
                    assert(old(self).state_spec().filled() == Some(filled_map(&acc)));
                    if complete {
                        assert forall|i: int|
                            0 <= i < n && i != me implies old(
                            self,
                        ).state_spec().filled().unwrap()[i] == true by {
                            assert(filled_map(&acc)[i] == true);
                        }
                    } else {
                        assert(exists|i: int|
                            0 <= i < n && i != me && !(#[trigger] filled_map(&acc)[i] == true));
                        let w = choose|i: int|
                            0 <= i < n && i != me && !(#[trigger] filled_map(&acc)[i] == true);
                        assert(old(self).state_spec().filled().unwrap()[w] != true);
                    }
                }
                if !complete {
                    self.state = InteractiveSigningState::Stage1(round, Some(acc));
                    return Err(Error::MyFault(MyFault::InvalidState));
                }
                let payloads = acc.finalize();
                proof {
                    assert forall|i: int|
                        0 <= i < n && i != me implies (#[trigger] payloads.view_at(
                        i,
                    )).unwrap().encodable() by {}
                }
                let next = round.finalize(payloads);
                self.state = InteractiveSigningState::Stage2(Box::new(next), None);
                Ok(())
            },
            InteractiveSigningState::Stage2(round, accum_opt) => {
                let acc = match accum_opt {
                    Some(a) => a,
                    None => {
                        self.state = InteractiveSigningState::Stage2(round, None);
                        return Err(Error::MyFault(MyFault::InvalidState));
                    },
                };
                let complete = acc.can_finalize();
                proof {
                    finished_bridge(&acc, complete, n as int, me as int);
                    assert(old(self).state_spec().filled() == Some(filled_map(&acc)));
                    if complete {
                        assert forall|i: int|
                            0 <= i < n && i != me implies old(
                            self,
                        ).state_spec().filled().unwrap()[i] == true by {
                            assert(filled_map(&acc)[i] == true);
                        }
                    } else {
                        assert(exists|i: int|
                            0 <= i < n && i != me && !(#[trigger] filled_map(&acc)[i] == true));
                        let w = choose|i: int|
                            0 <= i < n && i != me && !(#[trigger] filled_map(&acc)[i] == true);
                        assert(old(self).state_spec().filled().unwrap()[w] != true);
                    }
                }
                if !complete {
                    self.state = InteractiveSigningState::Stage2(round, Some(acc));
                    return Err(Error::MyFault(MyFault::InvalidState));
                }
                let next = (*round).finalize(rng);
                self.state = InteractiveSigningState::Stage3(next, None);
                Ok(())
            },
            InteractiveSigningState::Stage3(round, accum_opt) => {
                let acc = match accum_opt {
                    Some(a) => a,
                    None => {
                        self.state = InteractiveSigningState::Stage3(round, None);
                        return Err(Error::MyFault(MyFault::InvalidState));
                    },
                };
                let complete = acc.can_finalize();
                proof {
                    finished_bridge(&acc, complete, n as int, me as int);
                    assert(old(self).state_spec().filled() == Some(filled_map(&acc)));
                    if complete {
                        assert forall|i: int|
                            0 <= i < n && i != me implies old(
                            self,
                        ).state_spec().filled().unwrap()[i] == true by {
                            assert(filled_map(&acc)[i] == true);
                        }
                    } else {
                        assert(exists|i: int|
                            0 <= i < n && i != me && !(#[trigger] filled_map(&acc)[i] == true));
                        let w = choose|i: int|
                            0 <= i < n && i != me && !(#[trigger] filled_map(&acc)[i] == true);
                        assert(old(self).state_spec().filled().unwrap()[w] != true);
                    }
                }
                if !complete {
                    self.state = InteractiveSigningState::Stage3(round, Some(acc));
                    return Err(Error::MyFault(MyFault::InvalidState));
                }
                let payloads = acc.finalize();
                proof {
                    assert(crate::presigning::round2_payloads_wf(
                        payloads,
                        n as int,
                        me as int,
                    ));
                }
                let next = round.finalize(payloads);
                self.state = InteractiveSigningState::Stage4(next, None);
                Ok(())
            },
            InteractiveSigningState::Stage4(round, accum_opt) => {
                let acc = match accum_opt {
                    Some(a) => a,
                    None => {
                        self.state = InteractiveSigningState::Stage4(round, None);
                        return Err(Error::MyFault(MyFault::InvalidState));
                    },
                };
                let complete = acc.can_finalize();
                proof {
                    finished_bridge(&acc, complete, n as int, me as int);
                    assert(old(self).state_spec().filled() == Some(filled_map(&acc)));
                    if complete {
                        assert forall|i: int|
                            0 <= i < n && i != me implies old(
                            self,
                        ).state_spec().filled().unwrap()[i] == true by {
                            assert(filled_map(&acc)[i] == true);
                        }
                    } else {
                        assert(exists|i: int|
                            0 <= i < n && i != me && !(#[trigger] filled_map(&acc)[i] == true));
                        let w = choose|i: int|
                            0 <= i < n && i != me && !(#[trigger] filled_map(&acc)[i] == true);
                        assert(old(self).state_spec().filled().unwrap()[w] != true);
                    }
                }
                if !complete {
                    self.state = InteractiveSigningState::Stage4(round, Some(acc));
                    return Err(Error::MyFault(MyFault::InvalidState));
                }
                let payloads = acc.finalize();
                proof {
                    assert(crate::presigning::round3_payloads_wf(
                        payloads,
                        n as int,
                        me as int,
                    ));
                    assert(round.context.key_share.public@[me as int].wf());
                }
                let verifying_key = round.context.key_share.verifying_key_as_point();
                match round.finalize(rng, payloads) {
                    PresigningOutcome::Success(presigning) => {
                        let context = SigningContext {
                            message: self.message.dup(),
                            presigning,
                            verifying_key,
                        };
                        match SigningRound::new(context, n, me) {
                            Ok(sr) => {
                                self.state = InteractiveSigningState::Stage5(sr, None);
                                Ok(())
                            },
                            Err(_) => {
                                self.state = InteractiveSigningState::Failed(None);
                                Err(Error::ErrorRound)
                            },
                        }
                    },
                    PresigningOutcome::Failure(ev) => {
                        self.state = InteractiveSigningState::Failed(Some(ev));
                        Err(Error::ErrorRound)
                    },
                }
            },
            InteractiveSigningState::Stage5(round, accum_opt) => {
                let acc = match accum_opt {
                    Some(a) => a,
                    None => {
                        self.state = InteractiveSigningState::Stage5(round, None);
                        return Err(Error::MyFault(MyFault::InvalidState));
                    },
                };
                let complete = acc.can_finalize();
                proof {
                    finished_bridge(&acc, complete, n as int, me as int);
                    assert(old(self).state_spec().filled() == Some(filled_map(&acc)));
                    if complete {
                        assert forall|i: int|
                            0 <= i < n && i != me implies old(
                            self,
                        ).state_spec().filled().unwrap()[i] == true by {
                            assert(filled_map(&acc)[i] == true);
                        }
                    } else {
                        assert(exists|i: int|
                            0 <= i < n && i != me && !(#[trigger] filled_map(&acc)[i] == true));
                        let w = choose|i: int|
                            0 <= i < n && i != me && !(#[trigger] filled_map(&acc)[i] == true);
                        assert(old(self).state_spec().filled().unwrap()[w] != true);
                    }
                }
                if !complete {
                    self.state = InteractiveSigningState::Stage5(round, Some(acc));
                    return Err(Error::MyFault(MyFault::InvalidState));
                }
                let payloads = acc.finalize();
                proof {
                    assert(crate::signing::sigma_payloads_wf(payloads, n as int, me as int));
                }
                match round.finalize(payloads) {
                    Ok(sig) => {
                        self.state = InteractiveSigningState::Finished(sig);
                        Ok(())
                    },
                    Err(e) => {
                        self.state = InteractiveSigningState::Failed(None);
                        Err(e)
                    },
                }
            },
            other => {
                self.state = other;
                Err(Error::MyFault(MyFault::InvalidState))
            },
        }
    }
}

/// Prepends the one-byte stage tag to a serialized body.
fn tag_message(tag: u8, body: &Vec<u8>) -> (r: Vec<u8>)
    ensures
        r@ == seq![tag] + body@,
        r@.len() == body@.len() + 1,
{
    let mut out: Vec<u8> = Vec::new();
    out.push(tag);
    let mut i: usize = 0;
    while i < body.len()
        invariant
            0 <= i <= body@.len(),
            out@ == seq![tag] + body@.take(i as int),
        decreases body@.len() - i,
    {
        let b = body[i];
        out.push(b);
        assert(out@ =~= seq![tag] + body@.take(i + 1));
        i += 1;
    }
    proof {
        assert(out@ =~= seq![tag] + body@);
    }
    out
}

/// The filled map reads back slot occupancy pointwise.
proof fn lemma_filled_index<T>(acc: &HoleVecAccum<T>)
    ensures
        forall|i: int|
            0 <= i < acc@.len() ==> acc@.map_values(|o: Option<T>| o is Some)[i] == ((
            #[trigger] acc@[i]) is Some),
{
}

/// Whether every non-hole slot is occupied, read through the filled map.
proof fn finished_bridge<T>(acc: &HoleVecAccum<T>, b: bool, n: int, me: int)
    requires
        acc@.len() == n,
        acc.hole_idx() == me,
        b == (forall|i: int| 0 <= i < n && i != me ==> acc@[i] is Some),
    ensures
        b == (forall|i: int| 0 <= i < n && i != me ==> #[trigger] filled_map(acc)[i] == true),
{
    lemma_filled_index(acc);
    let m = filled_map(acc);
    if b {
        assert forall|i: int| 0 <= i < n && i != me implies m[i] == true by {
            assert(acc@[i] is Some);
        }
    } else {
        assert(exists|i: int| 0 <= i < n && i != me && !(#[trigger] acc@[i] is Some));
        let w = choose|i: int| 0 <= i < n && i != me && !(#[trigger] acc@[i] is Some);
        assert(m[w] == false);
        assert(!(forall|i: int| 0 <= i < n && i != me ==> m[i] == true));
    }
}

/// A fresh accumulator's filled map is all false.
proof fn filled_all_false<T>(acc: &HoleVecAccum<T>, n: int)
    requires
        acc@.len() == n,
        forall|i: int| 0 <= i < n ==> acc@[i] is None,
    ensures
        acc@.map_values(|o: Option<T>| o is Some) =~= Seq::new(n as nat, |i: int| false),
{
    assert(acc@.map_values(|o: Option<T>| o is Some) =~= Seq::new(n as nat, |i: int| false));
}

/// Inserting into one slot flips exactly that entry of the filled map.
proof fn filled_update<T>(pre: Seq<Option<T>>, post: Seq<Option<T>>, i: int)
    requires
        0 <= i < pre.len(),
        post.len() == pre.len(),
        forall|j: int| 0 <= j < pre.len() && j != i ==> post[j] == pre[j],
        post[i] is Some,
    ensures
        post.map_values(|o: Option<T>| o is Some) =~= pre.map_values(
            |o: Option<T>| o is Some,
        ).update(i, true),
{
    assert(post.map_values(|o: Option<T>| o is Some) =~= pre.map_values(
        |o: Option<T>| o is Some,
    ).update(i, true));
}

} // verus!
