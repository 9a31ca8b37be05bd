//! Distributed key generation: commit to the share data by hash,
//! reveal it, then prove knowledge of the secret share with a Schnorr
//! proof bound to the pooled randomness.

use crate::collections::{HoleVec, PartyIdx};
use crate::common::{Error, ProofKind, TheirFault};
use crate::drbg::Drbg;
use crate::group::{point_of, Point, Scalar};
use crate::hashing::{framed, sha256_of, Hasher};
use crate::sigma::{sch_challenge, SchCommitment, SchProof, SchSecret};
use vstd::prelude::*;

verus! {

/// The revealed per-party data: pooled-randomness contribution, public
/// share, Schnorr commitment, and blinding bytes.
pub struct FullData {
    pub rid: Vec<u8>,
    pub public: Point,
    pub commitment: SchCommitment,
    pub u: Vec<u8>,
}

/// The domain-separation tag of the key-generation commitment hash.
pub open spec fn keygen_dst() -> Seq<u8> {
    seq![75u8, 101, 121, 103, 101, 110]
}

/// The commitment hash of a party's revealed data.
pub open spec fn fd_hash_spec(
    shared_randomness: Seq<u8>,
    party_idx: u8,
    rid: Seq<u8>,
    public: Seq<u8>,
    commitment: Seq<u8>,
    u: Seq<u8>,
) -> Seq<u8> {
    sha256_of(
        framed(keygen_dst()) + framed(shared_randomness) + seq![party_idx] + framed(rid) + framed(
            public,
        ) + framed(commitment) + framed(u),
    )
}

impl FullData {
    pub open spec fn wf(&self) -> bool {
        &&& self.rid@.len() == 32
        &&& self.u@.len() == 32
        &&& self.public.wf()
        &&& self.public.rep().len() == 33
        &&& self.commitment.cap_a.wf()
        &&& self.commitment.cap_a.rep().len() == 33
    }

    /// An explicit copy.
    pub fn dup(&self) -> (r: FullData)
        ensures
            r.rid@ == self.rid@,
            r.u@ == self.u@,
            r.public.rep() == self.public.rep(),
            r.public.wf() == self.public.wf(),
            r.commitment.cap_a.rep() == self.commitment.cap_a.rep(),
            r.commitment.cap_a.wf() == self.commitment.cap_a.wf(),
            r.wf() == self.wf(),
    {
        let rid = self.rid.clone();
        let u = self.u.clone();
        proof {
            assert(rid@ =~= self.rid@);
            assert(u@ =~= self.u@);
        }
        FullData {
            rid,
            public: self.public.dup(),
            commitment: SchCommitment { cap_a: self.commitment.cap_a.dup() },
            u,
        }
    }

    /// The commitment hash, binding the session randomness and the
    /// sender's index.
    pub fn hash(&self, shared_randomness: &Vec<u8>, party_idx: u8) -> (r: Vec<u8>)
        requires
            self.wf(),
            shared_randomness@.len() < 0x100000000,
        ensures
            r@ == fd_hash_spec(
                shared_randomness@,
                party_idx,
                self.rid@,
                self.public.rep(),
                self.commitment.cap_a.rep(),
                self.u@,
            ),
            r@.len() == 32,
    {
        let mut dst: Vec<u8> = Vec::new();
        dst.push(75);
        dst.push(101);
        dst.push(121);
        dst.push(103);
        dst.push(101);
        dst.push(110);
        proof {
            assert(dst@ =~= keygen_dst());
        }
        let mut h = Hasher::new_with_dst(&dst);
        h.chain_bytes(shared_randomness);
        h.chain_u8(party_idx);
        h.chain_bytes(&self.rid);
        let pb = self.public.to_bytes();
        h.chain_bytes(&pb);
        let cb = self.commitment.cap_a.to_bytes();
        h.chain_bytes(&cb);
        h.chain_bytes(&self.u);
        let r = h.finalize();
        proof {
            assert(framed(keygen_dst()) + framed(shared_randomness@) + seq![party_idx] + framed(
                self.rid@,
            ) + framed(self.public.rep()) + framed(self.commitment.cap_a.rep()) + framed(self.u@)
                =~= ((((framed(keygen_dst()) + framed(shared_randomness@)) + seq![party_idx])
                + framed(self.rid@)) + framed(self.public.rep()) + framed(
                self.commitment.cap_a.rep(),
            )) + framed(self.u@));
        }
        r
    }
}

/// The auxiliary bytes the Schnorr proof binds: the session randomness,
/// the prover's index, and the pooled randomness.
pub open spec fn sch_aux_spec(shared_randomness: Seq<u8>, party_idx: u8, rid: Seq<u8>) -> Seq<
    u8,
> {
    framed(shared_randomness) + seq![party_idx] + framed(rid)
}

fn sch_aux(shared_randomness: &Vec<u8>, party_idx: u8, rid: &Vec<u8>) -> (r: Vec<u8>)
    requires
        shared_randomness@.len() < 0x100000000,
        rid@.len() < 0x100000000,
    ensures
        r@ == sch_aux_spec(shared_randomness@, party_idx, rid@),
        r@.len() == shared_randomness@.len() + rid@.len() + 9,
{
    let mut out: Vec<u8> = Vec::new();
    crate::codec::put_chunk(&mut out, shared_randomness);
    out.push(party_idx);
    let ghost mid = out@;
    crate::codec::put_chunk(&mut out, rid);
    proof {
        assert(mid =~= framed(shared_randomness@) + seq![party_idx]);
        assert(out@ =~= sch_aux_spec(shared_randomness@, party_idx, rid@));
        assert(crate::bytes::pow256(4) == 0x100000000) by {
            reveal_with_fuel(vstd::arithmetic::power::pow, 5);
        }
        crate::hashing::lemma_be_of_val(shared_randomness@.len(), 4);
        crate::hashing::lemma_be_of_val(rid@.len(), 4);
    }
    out
}

/// The result of key generation: this party's secret share and everyone's
/// public shares.
pub struct KeyShareSeed {
    pub secret: Scalar,
    pub public: Vec<Point>,
}

/// The private state carried through the rounds.
pub struct KeygenContext {
    pub key_share: Scalar,
    pub sch_secret: SchSecret,
    pub shared_randomness: Vec<u8>,
    pub party_idx: u8,
    pub num_parties: usize,
    pub data: FullData,
}

impl KeygenContext {
    pub open spec fn wf(&self) -> bool {
        &&& self.key_share.wf()
        &&& self.sch_secret.a.wf()
        &&& self.shared_randomness@.len() == 32
        &&& self.num_parties >= 2
        &&& (self.party_idx as int) < self.num_parties
        &&& self.num_parties <= 255
        &&& self.data.wf()
        &&& self.data.public.rep() == point_of(self.key_share.val())
        &&& self.data.commitment.cap_a.rep() == point_of(self.sch_secret.a.val())
    }
}

/// The broadcast of round one: the commitment hash.
pub struct Round1Bcast {
    pub hash: Vec<u8>,
}

/// Round one: draw the share and commit to the revealed data by hash.
pub struct Round1 {
    pub context: KeygenContext,
}

impl Round1 {
    /// Draws the secret share and the Schnorr nonce; fails only if the
    /// bounded resampling of ordinary (33-byte) points is exhausted.
    pub fn new(
        rng: &mut Drbg,
        shared_randomness: &Vec<u8>,
        num_parties: usize,
        party_idx: u8,
    ) -> (r: Result<Round1, Error>)
        requires
            old(rng).wf(),
            shared_randomness@.len() == 32,
            2 <= num_parties <= 255,
            (party_idx as int) < num_parties,
        ensures
            final (rng).wf(),
            match r {
                Ok(rd) => rd.context.wf() && rd.context.num_parties == num_parties
                    && rd.context.party_idx == party_idx,
                Err(_) => true,
            },
    {
        let mut secret = Scalar::random(rng);
        let mut public = secret.mul_by_generator();
        let mut a1: usize = 0;
        while public.encoded_len() != 33 && a1 < 100
            invariant
                rng.wf(),
                secret.wf(),
                public.wf(),
                public.rep() == point_of(secret.val()),
                0 <= a1 <= 100,
            decreases 100 - a1,
        {
            secret = Scalar::random(rng);
            public = secret.mul_by_generator();
            a1 += 1;
        }
        if public.encoded_len() != 33 {
            return Err(Error::MyFault(crate::common::MyFault::InvalidState));
        }
        let mut proof_secret = SchSecret::random(rng);
        let mut commitment = SchCommitment::new(&proof_secret);
        let mut a2: usize = 0;
        while commitment.cap_a.encoded_len() != 33 && a2 < 100
            invariant
                rng.wf(),
                proof_secret.a.wf(),
                commitment.cap_a.wf(),
                commitment.cap_a.rep() == point_of(proof_secret.a.val()),
                0 <= a2 <= 100,
            decreases 100 - a2,
        {
            proof_secret = SchSecret::random(rng);
            commitment = SchCommitment::new(&proof_secret);
            a2 += 1;
        }
        if commitment.cap_a.encoded_len() != 33 {
            return Err(Error::MyFault(crate::common::MyFault::InvalidState));
        }
        let rid = rng.fill(32);
        let u = rng.fill(32);
        let sr = shared_randomness.clone();
        proof {
            assert(sr@ =~= shared_randomness@);
        }
        let data = FullData { rid, public, commitment, u };
        Ok(
            Round1 {
                context: KeygenContext {
                    key_share: secret,
                    sch_secret: proof_secret,
                    shared_randomness: sr,
                    party_idx,
                    num_parties,
                    data,
                },
            },
        )
    }

    /// The broadcast payload: the commitment hash of this party's data.
    pub fn to_send(&self) -> (r: Round1Bcast)
        requires
            self.context.wf(),
        ensures
            r.hash@ == fd_hash_spec(
                self.context.shared_randomness@,
                self.context.party_idx,
                self.context.data.rid@,
                self.context.data.public.rep(),
                self.context.data.commitment.cap_a.rep(),
                self.context.data.u@,
            ),
            r.hash@.len() == 32,
    {
        Round1Bcast {
            hash: self.context.data.hash(&self.context.shared_randomness, self.context.party_idx),
        }
    }

    /// A commitment is accepted as is; it is checked at reveal time.
    pub fn verify_received(&self, _from: PartyIdx, msg: Round1Bcast) -> (r: Result<Vec<u8>, Error>)
        ensures
            r is Ok,
            r.unwrap()@ == msg.hash@,
    {
        Ok(msg.hash)
    }

    /// Keeps the received hashes for the reveal round.
    pub fn finalize(self, hashes: HoleVec<Vec<u8>>) -> (r: Round2)
        requires
            self.context.wf(),
            hashes.wf(),
            hashes.spec_len() == self.context.num_parties,
            hashes.hole_idx() == self.context.party_idx,
        ensures
            r.context == self.context,
            r.context.wf(),
            r.hashes.wf(),
            r.hashes.spec_len() == self.context.num_parties,
            r.hashes.hole_idx() == self.context.party_idx,
            forall|i: int|
                0 <= i < self.context.num_parties && i != self.context.party_idx
                    ==> #[trigger] r.hashes.view_at(i) == hashes.view_at(i),
    {
        Round2 { context: self.context, hashes }
    }
}

/// The broadcast of round two: the revealed data.
pub struct Round2Bcast {
    pub data: FullData,
}

/// Round two: reveal, and check everyone's reveal against the committed
/// hash.
pub struct Round2 {
    pub context: KeygenContext,
    pub hashes: HoleVec<Vec<u8>>,
}

impl Round2 {
    pub open spec fn wf(&self) -> bool {
        &&& self.context.wf()
        &&& self.hashes.wf()
        &&& self.hashes.spec_len() == self.context.num_parties
        &&& self.hashes.hole_idx() == self.context.party_idx
    }

    /// The broadcast payload: this party's data in the clear.
    pub fn to_send(&self) -> (r: Round2Bcast)
        requires
            self.wf(),
        ensures
            r.data.wf(),
            r.data.rid@ == self.context.data.rid@,
            r.data.public.rep() == self.context.data.public.rep(),
            r.data.commitment.cap_a.rep() == self.context.data.commitment.cap_a.rep(),
            r.data.u@ == self.context.data.u@,
    {
        Round2Bcast { data: self.context.data.dup() }
    }

    /// Accepts exactly the reveals whose hash matches the commitment.
    pub fn verify_received(&self, from: PartyIdx, msg: Round2Bcast) -> (r: Result<FullData, Error>)
        requires
            self.wf(),
            msg.data.wf(),
            0 <= from.spec_idx() < self.context.num_parties,
            from.spec_idx() != self.context.party_idx,
        ensures
            ({
                let expect = fd_hash_spec(
                    self.context.shared_randomness@,
                    from.spec_idx() as u8,
                    msg.data.rid@,
                    msg.data.public.rep(),
                    msg.data.commitment.cap_a.rep(),
                    msg.data.u@,
                );
                match r {
                    Ok(d) => {
                        &&& expect == self.hashes.view_at(from.spec_idx()).unwrap()@
                        &&& d.wf()
                        &&& d.rid@ == msg.data.rid@
                        &&& d.public.rep() == msg.data.public.rep()
                        &&& d.commitment.cap_a.rep() == msg.data.commitment.cap_a.rep()
                        &&& d.u@ == msg.data.u@
                    },
                    Err(e) => {
                        &&& expect != self.hashes.view_at(from.spec_idx()).unwrap()@
                        &&& e == Error::TheirFault {
                            party: from,
                            error: TheirFault::VerificationFail(ProofKind::HashMismatch),
                        }
                    },
                }
            }),
    {
        let computed = msg.data.hash(&self.context.shared_randomness, from.as_usize() as u8);
        let stored = self.hashes.get(from.as_usize());
        if crate::bytes::bytes_eq(&computed, stored) {
            Ok(msg.data)
        } else {
            Err(
                Error::TheirFault {
                    party: from,
                    error: TheirFault::VerificationFail(ProofKind::HashMismatch),
                },
            )
        }
    }

    /// Pools the randomness: the bytewise exclusive-or of every party's
    /// `rid`, folded in index order over this party's own contribution.
    pub fn finalize(self, payloads: HoleVec<FullData>) -> (r: Round3)
        requires
            self.wf(),
            payloads.wf(),
            payloads.spec_len() == self.context.num_parties,
            payloads.hole_idx() == self.context.party_idx,
            forall|i: int|
                0 <= i < self.context.num_parties && i != self.context.party_idx
                    ==> (#[trigger] payloads.view_at(i)).unwrap().wf(),
        ensures
            r.context == self.context,
            r.wf(),
            r.rid@.len() == 32,
            r.rid@ == xor_pool(
                self.context.data.rid@,
                payloads,
                self.context.party_idx as int,
                self.context.num_parties as int,
            ),
            forall|i: int|
                0 <= i < self.context.num_parties && i != self.context.party_idx
                    ==> #[trigger] r.datas.view_at(i) == payloads.view_at(i),
    {
        let n = self.context.num_parties;
        let me = self.context.party_idx as usize;
        let ghost own = self.context.data.rid@;
        let mut rid = self.context.data.rid.clone();
        proof {
            assert(rid@ =~= self.context.data.rid@);
        }
        let mut i: usize = 0;
        while i < n
            invariant
                self.wf(),
                payloads.wf(),
                payloads.spec_len() == n,
                payloads.hole_idx() == me,
                me == self.context.party_idx,
                n == self.context.num_parties,
                own == self.context.data.rid@,
                forall|t: int|
                    0 <= t < n && t != me ==> (#[trigger] payloads.view_at(t)).unwrap().wf(),
                0 <= i <= n,
                rid@.len() == 32,
                rid@ == xor_pool(own, payloads, me as int, i as int),
            decreases n - i,
        {
            if i != me {
                let p = payloads.get(i);
                proof {
                    assert(Some(*p) == payloads.view_at(i as int));
                    assert(payloads.view_at(i as int).unwrap().wf());
                }
                let mut t: usize = 0;
                let ghost pre = rid@;
                while t < 32
                    invariant
                        rid@.len() == 32,
                        pre.len() == 32,
                        p.rid@.len() == 32,
                        0 <= t <= 32,
                        forall|u: int| 0 <= u < t ==> rid@[u] == (pre[u] ^ p.rid@[u]),
                        forall|u: int| t <= u < 32 ==> rid@[u] == pre[u],
                    decreases 32 - t,
                {
                    let b = rid[t] ^ p.rid[t];
                    rid.set(t, b);
                    t += 1;
                }
                proof {
                    assert(rid@ =~= xor_bytes(pre, p.rid@));
                }
            }
            i += 1;
        }
        Round3 { context: self.context, datas: payloads, rid }
    }
}

/// The bytewise exclusive-or of two equal-length byte strings.
pub open spec fn xor_bytes(a: Seq<u8>, b: Seq<u8>) -> Seq<u8> {
    Seq::new(a.len(), |t: int| a[t] ^ b[t])
}

/// The pooled randomness after folding in the reveals of parties
/// `0..upto`, starting from this party's own contribution and skipping
/// its own slot.
pub open spec fn xor_pool(
    own: Seq<u8>,
    payloads: HoleVec<FullData>,
    me: int,
    upto: int,
) -> Seq<u8>
    decreases upto,
{
    if upto <= 0 {
        own
    } else {
        let prev = xor_pool(own, payloads, me, upto - 1);
        if upto - 1 == me {
            prev
        } else {
            xor_bytes(prev, payloads.view_at(upto - 1).unwrap().rid@)
        }
    }
}

/// The broadcast of round three: the Schnorr proof of knowledge.
pub struct Round3Bcast {
    pub proof: SchProof,
}

/// Round three: prove knowledge of the secret share, bound to the pooled
/// randomness.
pub struct Round3 {
    pub context: KeygenContext,
    pub datas: HoleVec<FullData>,
    pub rid: Vec<u8>,
}

impl Round3 {
    pub open spec fn wf(&self) -> bool {
        &&& self.context.wf()
        &&& self.datas.wf()
        &&& self.datas.spec_len() == self.context.num_parties
        &&& self.datas.hole_idx() == self.context.party_idx
        &&& self.rid@.len() == 32
        &&& forall|i: int|
            0 <= i < self.context.num_parties && i != self.context.party_idx
                ==> (#[trigger] self.datas.view_at(i)).unwrap().wf()
    }

    /// The broadcast payload: the Schnorr proof for this party's share.
    pub fn to_send(&self) -> (r: Round3Bcast)
        requires
            self.wf(),
        ensures
            r.proof.wf(),
            r.proof.challenge.val() == sch_challenge(
                sch_aux_spec(self.context.shared_randomness@, self.context.party_idx, self.rid@),
                self.context.data.commitment.cap_a.rep(),
                self.context.data.public.rep(),
            ),
    {
        let aux = sch_aux(&self.context.shared_randomness, self.context.party_idx, &self.rid);
        Round3Bcast {
            proof: SchProof::new(
                &self.context.sch_secret,
                &self.context.key_share,
                &self.context.data.commitment,
                &self.context.data.public,
                &aux,
            ),
        }
    }

    /// Accepts exactly the proofs that verify against the sender's
    /// committed data.
    pub fn verify_received(&self, from: PartyIdx, msg: Round3Bcast) -> (r: Result<bool, Error>)
        requires
            self.wf(),
            msg.proof.wf(),
            0 <= from.spec_idx() < self.context.num_parties,
            from.spec_idx() != self.context.party_idx,
        ensures
            ({
                let d = self.datas.view_at(from.spec_idx()).unwrap();
                let aux = sch_aux_spec(
                    self.context.shared_randomness@,
                    from.spec_idx() as u8,
                    self.rid@,
                );
                let ok = {
                    &&& msg.proof.challenge.val() == sch_challenge(
                        aux,
                        d.commitment.cap_a.rep(),
                        d.public.rep(),
                    )
                    &&& point_of(msg.proof.z.val()) == crate::group::point_sum(
                        d.commitment.cap_a.rep(),
                        crate::group::point_mul(d.public.rep(), msg.proof.challenge.val()),
                    )
                };
                match r {
                    Ok(_) => ok,
                    Err(e) => !ok && e == Error::TheirFault {
                        party: from,
                        error: TheirFault::VerificationFail(ProofKind::Sch),
                    },
                }
            }),
    {
        let d = self.datas.get(from.as_usize());
        let aux = sch_aux(&self.context.shared_randomness, from.as_usize() as u8, &self.rid);
        proof {
            assert(Some(*d) == self.datas.view_at(from.spec_idx()));
            assert(self.datas.view_at(from.spec_idx()).unwrap().wf());
        }
        if msg.proof.verify(&d.commitment, &d.public, &aux) {
            Ok(true)
        } else {
            Err(
                Error::TheirFault {
                    party: from,
                    error: TheirFault::VerificationFail(ProofKind::Sch),
                },
            )
        }
    }

    /// Emits everyone's public share in index order with this party's
    /// secret share.
    pub fn finalize(self) -> (r: KeyShareSeed)
        requires
            self.wf(),
        ensures
            r.secret.wf(),
            r.public@.len() == self.context.num_parties,
            forall|i: int|
                0 <= i < self.context.num_parties ==> (#[trigger] r.public@[i]).rep() == (if i
                    == self.context.party_idx {
                    self.context.data.public.rep()
                } else {
                    self.datas.view_at(i).unwrap().public.rep()
                }),
            r.public@[self.context.party_idx as int].rep() == point_of(r.secret.val()),
    {
        let n = self.context.num_parties;
        let me = self.context.party_idx as usize;
        let mut public: Vec<Point> = Vec::new();
        let mut i: usize = 0;
        while i < n
            invariant
                self.wf(),
                n == self.context.num_parties,
                me == self.context.party_idx,
                0 <= i <= n,
                public@.len() == i,
                forall|t: int|
                    0 <= t < i ==> (#[trigger] public@[t]).rep() == (if t == me {
                        self.context.data.public.rep()
                    } else {
                        self.datas.view_at(t).unwrap().public.rep()
                    }),
            decreases n - i,
        {
            if i == me {
                public.push(self.context.data.public.dup());
            } else {
                let p = self.datas.get(i);
                proof {
                    assert(Some(*p) == self.datas.view_at(i as int));
                }
                public.push(p.public.dup());
            }
            i += 1;
        }
        KeyShareSeed { secret: self.context.key_share, public }
    }
}

} // verus!
