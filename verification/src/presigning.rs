//! The presigning protocol: four message rounds that produce, for each
//! party, the triple `(R, k_i, chi_i)` — the common nonce point, an
//! additive share of the ephemeral scalar `k`, and an additive share of
//! the product `k·x`.
//!
//! Round one broadcasts Paillier encryptions of each party's `k_i` and
//! `gamma_i`; its second part sends range proofs. Round two exchanges the
//! masked homomorphic products; round three exchanges the reconstructed
//! `delta` shares and checks them against the curve, yielding either the
//! presigning triple or blame evidence.

use crate::codec::{chunks_of, concat_framed, split_chunks};
use crate::collections::{HoleVec, PartyIdx};
use crate::common::{
    int_sum, lemma_q_below_modulus, Error, KeyShareVectorized, PresigningData, ProofKind,
    TheirFault, ALPHA_BOUND_BYTES, LP_BYTES,
};
use crate::drbg::Drbg;
use crate::group::{point_mul, point_of, point_reps, pt_fold, q_order, Point, Scalar};
use crate::paillier::{
    dec_val, enc_val, signed_decode, Ciphertext, PaillierPublicKey, Randomizer, SignedBig,
};
use crate::sigma::{AffGProof, DecProof, EncProof, LogStarProof, MulProof};
use vstd::arithmetic::power::pow;
use vstd::prelude::*;

verus! {

/// A chunk that decodes as a compressed curve point.
pub open spec fn point_chunk_ok(c: Seq<u8>) -> bool {
    c.len() == 33 && (c[0] == 2 || c[0] == 3) && crate::group::is_point(c)
}

/// A chunk that decodes as a Paillier modulus.
pub open spec fn pk_chunk_ok(c: Seq<u8>) -> bool {
    crate::bytes::be_val(c) > 1 && c.len() <= 8192
}

/// A chunk that decodes as a canonical scalar.
pub open spec fn scalar_chunk_ok(c: Seq<u8>) -> bool {
    c.len() == 32 && crate::bytes::be_val(c) < q_order()
}

/// A body that decodes as a round-one broadcast.
pub open spec fn round1_bcast_decodes(body: Seq<u8>) -> bool {
    chunks_of(body) is Some && chunks_of(body).unwrap().len() == 2
}

/// A body that decodes as a round-one direct message.
pub open spec fn round1_direct_decodes(body: Seq<u8>) -> bool {
    &&& chunks_of(body) is Some
    &&& chunks_of(body).unwrap().len() == 2
    &&& pk_chunk_ok(chunks_of(body).unwrap()[0])
}

/// A body that decodes as a round-two direct message.
pub open spec fn round2_direct_decodes(body: Seq<u8>) -> bool {
    &&& chunks_of(body) is Some
    &&& chunks_of(body).unwrap().len() == 13
    &&& point_chunk_ok(chunks_of(body).unwrap()[0])
    &&& pk_chunk_ok(chunks_of(body).unwrap()[5])
    &&& pk_chunk_ok(chunks_of(body).unwrap()[6])
    &&& pk_chunk_ok(chunks_of(body).unwrap()[8])
    &&& pk_chunk_ok(chunks_of(body).unwrap()[9])
    &&& pk_chunk_ok(chunks_of(body).unwrap()[11])
}

/// A body that decodes as a round-three broadcast.
pub open spec fn round3_bcast_decodes(body: Seq<u8>) -> bool {
    &&& chunks_of(body) is Some
    &&& chunks_of(body).unwrap().len() == 4
    &&& scalar_chunk_ok(chunks_of(body).unwrap()[0])
    &&& point_chunk_ok(chunks_of(body).unwrap()[1])
    &&& pk_chunk_ok(chunks_of(body).unwrap()[2])
}

/// The index of the `k`-th other party, for a party at index `me`.
pub open spec fn other_idx(me: int, k: int) -> int {
    if k < me {
        k
    } else {
        k + 1
    }
}

/// The per-party secrets sampled at the start of presigning.
pub struct Context {
    pub shared_randomness: Vec<u8>,
    pub key_share: KeyShareVectorized,
    pub num_parties: usize,
    pub my_idx: usize,
    pub ephemeral_scalar_share: Scalar,
    pub gamma: Scalar,
    pub rho: Randomizer,
    pub nu: Randomizer,
}

impl Context {
    /// This party's own Paillier modulus.
    pub open spec fn own_modulus(&self) -> nat {
        self.key_share.public@[self.my_idx as int].paillier_pk.n_val()
    }

    pub open spec fn wf(&self) -> bool {
        &&& self.key_share.wf(self.num_parties as int, self.my_idx as int)
        &&& self.num_parties >= 2
        &&& self.num_parties <= 0xffffffff
        &&& self.shared_randomness@.len() == 32
        &&& self.ephemeral_scalar_share.wf()
        &&& self.gamma.wf()
        &&& self.rho.wf_for(self.own_modulus())
        &&& self.nu.wf_for(self.own_modulus())
    }
}

/// The broadcast of round one: the two Paillier ciphertexts.
pub struct Round1Bcast {
    pub k_ciphertext: Ciphertext,
    pub g_ciphertext: Ciphertext,
}

impl Round1Bcast {
    /// The chunk list of the wire form.
    pub open spec fn chunks(&self) -> Seq<Seq<u8>> {
        seq![self.k_ciphertext.rep(), self.g_ciphertext.rep()]
    }

    pub open spec fn encodable(&self) -> bool {
        self.k_ciphertext.rep().len() < 0x100000000 && self.g_ciphertext.rep().len() < 0x100000000
    }

    pub fn to_bytes(&self) -> (r: Vec<u8>)
        requires
            self.encodable(),
        ensures
            r@ == concat_framed(self.chunks()),
    {
        let mut fields: Vec<Vec<u8>> = Vec::new();
        fields.push(self.k_ciphertext.to_bytes());
        fields.push(self.g_ciphertext.to_bytes());
        proof {
            assert(fields@.map_values(|c: Vec<u8>| c@) =~= self.chunks());
        }
        crate::codec::encode_chunks(&fields)
    }

    pub fn from_bytes(buf: &Vec<u8>) -> (r: Option<Round1Bcast>)
        ensures
            match r {
                Some(m) => {
                    &&& chunks_of(buf@) == Some(m.chunks())
                    &&& m.encodable()
                    &&& round1_bcast_decodes(buf@)
                },
                None => !round1_bcast_decodes(buf@),
            },
    {
        let parts = match split_chunks(buf) {
            Some(p) => p,
            None => {
                return None;
            },
        };
        if parts.len() != 2 {
            return None;
        }
        let m = Round1Bcast {
            k_ciphertext: Ciphertext::from_raw_bytes(&parts[0]),
            g_ciphertext: Ciphertext::from_raw_bytes(&parts[1]),
        };
        proof {
            assert(parts@.map_values(|c: Vec<u8>| c@) =~= m.chunks());
            crate::codec::lemma_chunks_bounded(buf@);
        }
        Some(m)
    }
}

/// Serialize-then-parse is the identity on a round-one broadcast.
pub proof fn lemma_round1_bcast_round_trip(m: Round1Bcast)
    requires
        m.encodable(),
    ensures
        chunks_of(concat_framed(m.chunks())) == Some(m.chunks()),
{
    crate::codec::lemma_chunks_concat(m.chunks());
}

/// The direct message of round one, part two: the encryption-in-range
/// proof.
pub struct Round1Direct(pub EncProof);

impl Round1Direct {
    pub open spec fn chunks(&self) -> Seq<Seq<u8>> {
        seq![self.0.pk.rep(), self.0.binding@]
    }

    pub open spec fn encodable(&self) -> bool {
        self.0.pk.rep().len() < 0x100000000 && self.0.binding@.len() < 0x100000000
    }

    pub fn to_bytes(&self) -> (r: Vec<u8>)
        requires
            self.encodable(),
        ensures
            r@ == concat_framed(self.chunks()),
    {
        let mut fields: Vec<Vec<u8>> = Vec::new();
        fields.push(self.0.pk.n_bytes());
        let binding = self.0.binding.clone();
        proof {
            assert(binding@ =~= self.0.binding@);
        }
        fields.push(binding);
        proof {
            assert(fields@.map_values(|c: Vec<u8>| c@) =~= self.chunks());
        }
        crate::codec::encode_chunks(&fields)
    }

    pub fn from_bytes(buf: &Vec<u8>) -> (r: Option<Round1Direct>)
        ensures
            match r {
                Some(m) => {
                    &&& chunks_of(buf@) == Some(m.chunks())
                    &&& m.encodable()
                    &&& m.0.pk.wf()
                    &&& round1_direct_decodes(buf@)
                },
                None => !round1_direct_decodes(buf@),
            },
    {
        let parts = match split_chunks(buf) {
            Some(p) => p,
            None => {
                return None;
            },
        };
        if parts.len() != 2 {
            return None;
        }
        let pk = match PaillierPublicKey::from_n_bytes(&parts[0]) {
            Some(pk) => pk,
            None => {
                return None;
            },
        };
        let binding = crate::codec::copy_range(&parts[1], 0, parts[1].len());
        proof {
            assert(binding@ =~= parts@[1]@);
        }
        let m = Round1Direct(EncProof { pk, binding });
        proof {
            assert(parts@.map_values(|c: Vec<u8>| c@) =~= m.chunks());
            crate::codec::lemma_chunks_bounded(buf@);
        }
        Some(m)
    }
}

/// Serialize-then-parse is the identity on a round-one direct message.
pub proof fn lemma_round1_direct_round_trip(m: Round1Direct)
    requires
        m.encodable(),
    ensures
        chunks_of(concat_framed(m.chunks())) == Some(m.chunks()),
{
    crate::codec::lemma_chunks_concat(m.chunks());
}

/// Round one, part one: sample the per-signature secrets and broadcast
/// the two ciphertexts.
pub struct Round1Part1 {
    pub context: Context,
    pub k_ciphertext: Ciphertext,
    pub g_ciphertext: Ciphertext,
}

impl Round1Part1 {
    pub open spec fn wf(&self) -> bool {
        &&& self.context.wf()
        &&& self.k_ciphertext.c_val() == enc_val(
            self.context.own_modulus(),
            self.context.ephemeral_scalar_share.val(),
            self.context.rho.val(),
        )
        &&& self.g_ciphertext.c_val() == enc_val(
            self.context.own_modulus(),
            self.context.gamma.val(),
            self.context.nu.val(),
        )
        &&& self.k_ciphertext.rep().len() <= 16384
        &&& self.g_ciphertext.rep().len() <= 16384
    }

    /// Samples `k_i`, `gamma_i` and the two randomizers, and encrypts
    /// `k_i` and `gamma_i` under this party's own Paillier key.
    pub fn new(
        rng: &mut Drbg,
        shared_randomness: Vec<u8>,
        num_parties: usize,
        party_idx: usize,
        key_share: KeyShareVectorized,
    ) -> (r: Round1Part1)
        requires
            old(rng).wf(),
            key_share.wf(num_parties as int, party_idx as int),
            2 <= num_parties <= 0xffffffff,
            shared_randomness@.len() == 32,
        ensures
            final (rng).wf(),
            r.wf(),
            r.context.shared_randomness@ == shared_randomness@,
            r.context.key_share == key_share,
            r.context.num_parties == num_parties,
            r.context.my_idx == party_idx,
    {
        let ephemeral_scalar_share = Scalar::random(rng);
        let gamma = Scalar::random(rng);
        proof {
            assert(key_share.public@[party_idx as int].wf());
        }
        let pk = key_share.public[party_idx].paillier_pk.clone_key();
        proof {
            lemma_q_below_modulus(pk.n_val());
        }
        let rho = Randomizer::random(rng, &pk);
        let nu = Randomizer::random(rng, &pk);
        let kb = ephemeral_scalar_share.to_be_bytes();
        let gb = gamma.to_be_bytes();
        let k_ciphertext = Ciphertext::new_with_randomizer(&pk, &kb, &rho);
        let g_ciphertext = Ciphertext::new_with_randomizer(&pk, &gb, &nu);
        Round1Part1 {
            context: Context {
                shared_randomness,
                key_share,
                num_parties,
                my_idx: party_idx,
                ephemeral_scalar_share,
                gamma,
                rho,
                nu,
            },
            k_ciphertext,
            g_ciphertext,
        }
    }

    /// The broadcast payload: the two stored ciphertexts.
    pub fn to_send(&self) -> (r: Round1Bcast)
        ensures
            r.k_ciphertext.rep() == self.k_ciphertext.rep(),
            r.g_ciphertext.rep() == self.g_ciphertext.rep(),
            r.k_ciphertext.c_val() == self.k_ciphertext.c_val(),
            r.g_ciphertext.c_val() == self.g_ciphertext.c_val(),
    {
        Round1Bcast {
            k_ciphertext: self.k_ciphertext.clone_ct(),
            g_ciphertext: self.g_ciphertext.clone_ct(),
        }
    }

    /// A broadcast round with consensus: the payload is accepted as is,
    /// equivocation being the business of the envelope layer.
    pub fn verify_received(&self, _from: PartyIdx, msg: Round1Bcast) -> (r: Result<
        Round1Bcast,
        Error,
    >)
        ensures
            r is Ok,
            r.unwrap() == msg,
    {
        Ok(msg)
    }

    /// Collects everybody's ciphertexts into index-ordered vectors.
    pub fn finalize(self, payloads: HoleVec<Round1Bcast>) -> (r: Round1Part2)
        requires
            self.wf(),
            payloads.wf(),
            payloads.spec_len() == self.context.num_parties,
            payloads.hole_idx() == self.context.my_idx,
            forall|i: int|
                0 <= i < self.context.num_parties && i != self.context.my_idx
                    ==> (#[trigger] payloads.view_at(i)).unwrap().encodable(),
        ensures
            r.context == self.context,
            r.wf(),
            r.k_ciphertexts@.len() == self.context.num_parties,
            r.g_ciphertexts@.len() == self.context.num_parties,
            forall|i: int|
                0 <= i < self.context.num_parties && i != self.context.my_idx
                    ==> (#[trigger] r.k_ciphertexts@[i]).rep() == payloads.view_at(
                    i,
                ).unwrap().k_ciphertext.rep(),
            forall|i: int|
                0 <= i < self.context.num_parties && i != self.context.my_idx
                    ==> (#[trigger] r.g_ciphertexts@[i]).rep() == payloads.view_at(
                    i,
                ).unwrap().g_ciphertext.rep(),
            r.k_ciphertexts@[self.context.my_idx as int].rep() == self.k_ciphertext.rep(),
            r.g_ciphertexts@[self.context.my_idx as int].rep() == self.g_ciphertext.rep(),
    {
        let n = self.context.num_parties;
        let me = self.context.my_idx;
        let mut k_ciphertexts: Vec<Ciphertext> = Vec::new();
        let mut g_ciphertexts: Vec<Ciphertext> = Vec::new();
        let mut i: usize = 0;
        while i < n
            invariant
                self.wf(),
                payloads.wf(),
                payloads.spec_len() == n,
                payloads.hole_idx() == me,
                me < n,
                n == self.context.num_parties,
                me == self.context.my_idx,
                forall|j: int|
                    0 <= j < n && j != me ==> (#[trigger] payloads.view_at(
                        j,
                    )).unwrap().encodable(),
                0 <= i <= n,
                k_ciphertexts@.len() == i,
                g_ciphertexts@.len() == i,
                forall|j: int|
                    0 <= j < i && j != me ==> (#[trigger] k_ciphertexts@[j]).rep()
                        == payloads.view_at(j).unwrap().k_ciphertext.rep(),
                forall|j: int|
                    0 <= j < i && j != me ==> (#[trigger] g_ciphertexts@[j]).rep()
                        == payloads.view_at(j).unwrap().g_ciphertext.rep(),
                i > me ==> k_ciphertexts@[me as int].rep() == self.k_ciphertext.rep()
                    && g_ciphertexts@[me as int].rep() == self.g_ciphertext.rep(),
            decreases n - i,
        {
            if i == me {
                k_ciphertexts.push(self.k_ciphertext.clone_ct());
                g_ciphertexts.push(self.g_ciphertext.clone_ct());
            } else {
                let p = payloads.get(i);
                proof {
                    assert(Some(*p) == payloads.view_at(i as int));
                }
                k_ciphertexts.push(p.k_ciphertext.clone_ct());
                g_ciphertexts.push(p.g_ciphertext.clone_ct());
                proof {
                    assert(k_ciphertexts@[i as int].rep() == payloads.view_at(
                        i as int,
                    ).unwrap().k_ciphertext.rep());
                    assert(g_ciphertexts@[i as int].rep() == payloads.view_at(
                        i as int,
                    ).unwrap().g_ciphertext.rep());
                }
            }
            i += 1;
        }
        Round1Part2 { context: self.context, k_ciphertexts, g_ciphertexts }
    }
}

/// Round one, part two: send every other party an encryption-in-range
/// proof for the `k` ciphertext.
pub struct Round1Part2 {
    pub context: Context,
    pub k_ciphertexts: Vec<Ciphertext>,
    pub g_ciphertexts: Vec<Ciphertext>,
}

impl Round1Part2 {
    pub open spec fn wf(&self) -> bool {
        &&& self.context.wf()
        &&& self.k_ciphertexts@.len() == self.context.num_parties
        &&& self.g_ciphertexts@.len() == self.context.num_parties
        &&& forall|i: int|
            0 <= i < self.context.num_parties ==> (#[trigger] self.k_ciphertexts@[i]).rep().len()
                < 0x100000000
        &&& forall|i: int|
            0 <= i < self.context.num_parties ==> (#[trigger] self.g_ciphertexts@[i]).rep().len()
                < 0x100000000
    }

    /// What an incoming range proof must carry: the sender's key and the
    /// transcript over the sender's `K` ciphertext, this session, and the
    /// sender's index.
    pub open spec fn enc_accepts(&self, from: int, msg: Round1Direct) -> bool {
        &&& msg.0.pk.n_val() == self.context.key_share.public@[from].paillier_pk.n_val()
        &&& msg.0.binding@ == crate::sigma::enc_binding(
            self.context.key_share.public@[from].paillier_pk.rep(),
            self.k_ciphertexts@[from].rep(),
            self.context.shared_randomness@,
            from as nat,
        )
    }

    /// One range proof for each other party, keyed by recipient index,
    /// each bound to this party's `K` ciphertext, the session randomness
    /// and this party's index.
    pub fn to_send(&self) -> (r: Vec<(PartyIdx, Round1Direct)>)
        requires
            self.wf(),
        ensures
            r@.len() == self.context.num_parties - 1,
            forall|k: int|
                0 <= k < r@.len() ==> {
                    &&& (#[trigger] r@[k]).0.spec_idx() == other_idx(
                        self.context.my_idx as int,
                        k,
                    )
                    &&& r@[k].1.0.pk.n_val() == self.context.own_modulus()
                    &&& r@[k].1.0.pk.rep() == self.context.key_share.public@[self.context.my_idx as int].paillier_pk.rep()
                    &&& r@[k].1.0.binding@ == crate::sigma::enc_binding(
                        self.context.key_share.public@[self.context.my_idx as int].paillier_pk.rep(),
                        self.k_ciphertexts@[self.context.my_idx as int].rep(),
                        self.context.shared_randomness@,
                        self.context.my_idx as nat,
                    )
                    &&& r@[k].1.encodable()
                },
    {
        let n = self.context.num_parties;
        let me = self.context.my_idx;
        proof {
            assert(self.context.key_share.public@[me as int].wf());
        }
        let own_pk = self.context.key_share.public[me].paillier_pk.clone_key();
        let mut out: Vec<(PartyIdx, Round1Direct)> = Vec::new();
        let mut i: usize = 0;
        while i < n
            invariant
                self.wf(),
                n == self.context.num_parties,
                me == self.context.my_idx,
                own_pk.n_val() == self.context.own_modulus(),
                own_pk.rep() == self.context.key_share.public@[me as int].paillier_pk.rep(),
                own_pk.wf(),
                own_pk.rep().len() <= 8192,
                0 <= i <= n,
                out@.len() == if i <= me {
                    i as int
                } else {
                    i - 1
                },
                forall|k: int|
                    0 <= k < out@.len() ==> {
                        &&& (#[trigger] out@[k]).0.spec_idx() == other_idx(me as int, k)
                        &&& out@[k].1.0.pk.n_val() == self.context.own_modulus()
                        &&& out@[k].1.0.pk.rep()
                            == self.context.key_share.public@[me as int].paillier_pk.rep()
                        &&& out@[k].1.0.binding@ == crate::sigma::enc_binding(
                            self.context.key_share.public@[me as int].paillier_pk.rep(),
                            self.k_ciphertexts@[me as int].rep(),
                            self.context.shared_randomness@,
                            me as nat,
                        )
                        &&& out@[k].1.encodable()
                    },
            decreases n - i,
        {
            if i != me {
                let proof_msg = Round1Direct(
                    EncProof::random(
                        &own_pk,
                        &self.k_ciphertexts[me],
                        &self.context.shared_randomness,
                        me as u32,
                    ),
                );
                out.push((PartyIdx::from_usize(i), proof_msg));
            }
            i += 1;
        }
        out
    }

    /// Accepts exactly the proofs bound to the sender's Paillier key, the
    /// sender's `K` ciphertext, this session and the sender's index.
    pub fn verify_received(&self, from: PartyIdx, msg: Round1Direct) -> (r: Result<bool, Error>)
        requires
            self.wf(),
            0 <= from.spec_idx() < self.context.num_parties,
        ensures
            r is Ok <==> self.enc_accepts(from.spec_idx(), msg),
            r is Err ==> r == Result::<bool, Error>::Err(
                Error::TheirFault { party: from, error: TheirFault::VerificationFail(ProofKind::Enc) },
            ),
    {
        let fidx = from.as_usize();
        let sender_pk = &self.context.key_share.public[fidx].paillier_pk;
        let ok = msg.0.verify(
            sender_pk,
            &self.k_ciphertexts[fidx],
            &self.context.shared_randomness,
            fidx as u32,
        );
        if ok {
            Ok(true)
        } else {
            Err(Error::TheirFault { party: from, error: TheirFault::VerificationFail(ProofKind::Enc) })
        }
    }

    /// Nothing to combine: the next round carries the same state.
    pub fn finalize(self, rng: &mut Drbg) -> (r: Round2)
        requires
            old(rng).wf(),
            self.wf(),
        ensures
            final (rng).wf(),
            r.wf(),
            r.context == self.context,
    {
        Round2::new(rng, self)
    }
}

/// The direct message of round two: the masked products, their helper
/// ciphertexts, the prover's `Gamma` point, and the three proofs.
pub struct Round2Direct {
    pub gamma: Point,
    pub d: Ciphertext,
    pub d_hat: Ciphertext,
    pub f: Ciphertext,
    pub f_hat: Ciphertext,
    pub psi: AffGProof,
    pub psi_hat: AffGProof,
    pub psi_hat_prime: LogStarProof,
}

impl Round2Direct {
    pub open spec fn chunks(&self) -> Seq<Seq<u8>> {
        seq![
            self.gamma.rep(),
            self.d.rep(),
            self.d_hat.rep(),
            self.f.rep(),
            self.f_hat.rep(),
            self.psi.pk0.rep(),
            self.psi.pk1.rep(),
            self.psi.binding@,
            self.psi_hat.pk0.rep(),
            self.psi_hat.pk1.rep(),
            self.psi_hat.binding@,
            self.psi_hat_prime.pk.rep(),
            self.psi_hat_prime.binding@,
        ]
    }

    pub open spec fn encodable(&self) -> bool {
        forall|i: int| 0 <= i < self.chunks().len() ==> (#[trigger] self.chunks()[i]).len()
            < 0x100000000
    }

    /// Structural validity of a received message: the point decodes and
    /// the embedded keys are moduli.
    pub open spec fn valid(&self) -> bool {
        &&& self.gamma.wf()
        &&& self.gamma.rep().len() == 33
        &&& self.psi.wf()
        &&& self.psi_hat.wf()
        &&& self.psi_hat_prime.wf()
    }

    /// An explicit copy, field by field.
    pub fn dup(&self) -> (r: Round2Direct)
        ensures
            r.chunks() == self.chunks(),
            r.valid() == self.valid(),
            r.encodable() == self.encodable(),
    {
        let lb = self.psi_hat_prime.binding.clone();
        proof {
            assert(lb@ =~= self.psi_hat_prime.binding@);
        }
        let r = Round2Direct {
            gamma: self.gamma.dup(),
            d: self.d.clone_ct(),
            d_hat: self.d_hat.clone_ct(),
            f: self.f.clone_ct(),
            f_hat: self.f_hat.clone_ct(),
            psi: self.psi.dup(),
            psi_hat: self.psi_hat.dup(),
            psi_hat_prime: LogStarProof { pk: self.psi_hat_prime.pk.clone_key(), binding: lb },
        };
        proof {
            assert(r.chunks() =~= self.chunks());
        }
        r
    }

    pub fn to_bytes(&self) -> (r: Vec<u8>)
        requires
            self.encodable(),
        ensures
            r@ == concat_framed(self.chunks()),
    {
        let mut fields: Vec<Vec<u8>> = Vec::new();
        fields.push(self.gamma.to_bytes());
        fields.push(self.d.to_bytes());
        fields.push(self.d_hat.to_bytes());
        fields.push(self.f.to_bytes());
        fields.push(self.f_hat.to_bytes());
        fields.push(self.psi.pk0.n_bytes());
        fields.push(self.psi.pk1.n_bytes());
        let b1 = self.psi.binding.clone();
        proof {
            assert(b1@ =~= self.psi.binding@);
        }
        fields.push(b1);
        fields.push(self.psi_hat.pk0.n_bytes());
        fields.push(self.psi_hat.pk1.n_bytes());
        let b2 = self.psi_hat.binding.clone();
        proof {
            assert(b2@ =~= self.psi_hat.binding@);
        }
        fields.push(b2);
        fields.push(self.psi_hat_prime.pk.n_bytes());
        let b3 = self.psi_hat_prime.binding.clone();
        proof {
            assert(b3@ =~= self.psi_hat_prime.binding@);
        }
        fields.push(b3);
        proof {
            assert(fields@.map_values(|c: Vec<u8>| c@) =~= self.chunks());
        }
        crate::codec::encode_chunks(&fields)
    }

    pub fn from_bytes(buf: &Vec<u8>) -> (r: Option<Round2Direct>)
        ensures
            match r {
                Some(m) => {
                    &&& chunks_of(buf@) == Some(m.chunks())
                    &&& m.encodable()
                    &&& m.valid()
                    &&& round2_direct_decodes(buf@)
                },
                None => !round2_direct_decodes(buf@),
            },
    {
        let parts = match split_chunks(buf) {
            Some(p) => p,
            None => {
                return None;
            },
        };
        if parts.len() != 13 {
            return None;
        }
        let gamma = match Point::try_from_compressed_bytes(&parts[0]) {
            Some(p) => p,
            None => {
                return None;
            },
        };
        let pk0 = match PaillierPublicKey::from_n_bytes(&parts[5]) {
            Some(k) => k,
            None => {
                return None;
            },
        };
        let pk1 = match PaillierPublicKey::from_n_bytes(&parts[6]) {
            Some(k) => k,
            None => {
                return None;
            },
        };
        let hpk0 = match PaillierPublicKey::from_n_bytes(&parts[8]) {
            Some(k) => k,
            None => {
                return None;
            },
        };
        let hpk1 = match PaillierPublicKey::from_n_bytes(&parts[9]) {
            Some(k) => k,
            None => {
                return None;
            },
        };
        let lpk = match PaillierPublicKey::from_n_bytes(&parts[11]) {
            Some(k) => k,
            None => {
                return None;
            },
        };
        let b1 = crate::codec::copy_range(&parts[7], 0, parts[7].len());
        let b2 = crate::codec::copy_range(&parts[10], 0, parts[10].len());
        let b3 = crate::codec::copy_range(&parts[12], 0, parts[12].len());
        proof {
            assert(b1@ =~= parts@[7]@);
            assert(b2@ =~= parts@[10]@);
            assert(b3@ =~= parts@[12]@);
        }
        let m = Round2Direct {
            gamma,
            d: Ciphertext::from_raw_bytes(&parts[1]),
            d_hat: Ciphertext::from_raw_bytes(&parts[2]),
            f: Ciphertext::from_raw_bytes(&parts[3]),
            f_hat: Ciphertext::from_raw_bytes(&parts[4]),
            psi: AffGProof { pk0, pk1, binding: b1 },
            psi_hat: AffGProof { pk0: hpk0, pk1: hpk1, binding: b2 },
            psi_hat_prime: LogStarProof { pk: lpk, binding: b3 },
        };
        proof {
            assert(parts@.map_values(|c: Vec<u8>| c@) =~= m.chunks());
            crate::codec::lemma_chunks_bounded(buf@);
            assert(chunks_of(buf@).unwrap() == m.chunks());
            assert forall|i: int| 0 <= i < m.chunks().len() implies (#[trigger] m.chunks()[i]).len()
                < 0x100000000 by {
                assert(m.chunks()[i] == chunks_of(buf@).unwrap()[i]);
            }
        }
        Some(m)
    }
}

/// Serialize-then-parse is the identity on a round-two direct message.
pub proof fn lemma_round2_direct_round_trip(m: Round2Direct)
    requires
        m.encodable(),
    ensures
        chunks_of(concat_framed(m.chunks())) == Some(m.chunks()),
{
    crate::codec::lemma_chunks_concat(m.chunks());
}

/// The payload round two hands to finalization, per sender.
pub struct Round2Payload {
    pub gamma: Point,
    pub alpha: SignedBig,
    pub alpha_hat: Scalar,
    pub cap_d: Ciphertext,
}

impl Round2Payload {
    pub open spec fn wf(&self) -> bool {
        &&& self.gamma.wf()
        &&& self.gamma.rep().len() == 33
        &&& self.alpha_hat.wf()
    }
}

/// The value of a masked-product ciphertext `K^x · Enc(-beta; s) mod N^2`.
pub open spec fn d_val(n: nat, kct: nat, x: nat, beta: int, s: nat) -> nat {
    (((pow(kct as int, x) % ((n * n) as int)) as nat) * enc_val(
        n,
        ((0 - beta) % (n as int)) as nat,
        s,
    )) % (n * n)
}

/// Round two: construct and send the masked products, then decrypt the
/// ones received.
pub struct Round2 {
    pub context: Context,
    pub k_ciphertexts: Vec<Ciphertext>,
    pub g_ciphertexts: Vec<Ciphertext>,
    pub betas: Vec<SignedBig>,
    pub betas_hat: Vec<SignedBig>,
    pub s_rands: Vec<Randomizer>,
    pub shat_rands: Vec<Randomizer>,
    pub r_rands: Vec<Randomizer>,
    pub rhat_rands: Vec<Randomizer>,
    pub msgs: Vec<Round2Direct>,
}

impl Round2 {
    /// The modulus of the `k`-th other party.
    pub open spec fn other_modulus(&self, k: int) -> nat {
        self.context.key_share.public@[other_idx(self.context.my_idx as int, k)].paillier_pk.n_val()
    }

    pub open spec fn wf(&self) -> bool {
        let n = self.context.num_parties as int;
        let me = self.context.my_idx as int;
        &&& self.context.wf()
        &&& self.k_ciphertexts@.len() == n
        &&& self.g_ciphertexts@.len() == n
        &&& self.betas@.len() == n - 1
        &&& self.betas_hat@.len() == n - 1
        &&& self.s_rands@.len() == n - 1
        &&& self.shat_rands@.len() == n - 1
        &&& self.r_rands@.len() == n - 1
        &&& self.rhat_rands@.len() == n - 1
        &&& self.msgs@.len() == n - 1
        &&& forall|k: int|
            0 <= k < n - 1 ==> (#[trigger] self.betas@[k]).mag_val() < crate::bytes::pow256(
                LP_BYTES as nat,
            )
        &&& forall|k: int|
            0 <= k < n - 1 ==> (#[trigger] self.betas_hat@[k]).mag_val() < crate::bytes::pow256(
                LP_BYTES as nat,
            )
        &&& forall|k: int| 0 <= k < n - 1 ==> (#[trigger] self.msgs@[k]).encodable()
        &&& forall|i: int|
            0 <= i < n ==> (#[trigger] self.k_ciphertexts@[i]).rep().len() < 0x100000000
        &&& forall|i: int|
            0 <= i < n ==> (#[trigger] self.g_ciphertexts@[i]).rep().len() < 0x100000000
    }

    /// Samples the masks and randomizers and builds every outgoing
    /// message: for the `k`-th other party `j`,
    /// `D = K_j^gamma · Enc(-beta_k)`, `D_hat = K_j^x · Enc(-beta_hat_k)`,
    /// `F = Enc(beta_k)`, `F_hat = Enc(beta_hat_k)`, together with the
    /// proofs bound to the recipient's and this party's Paillier keys.
    pub fn new(rng: &mut Drbg, round1: Round1Part2) -> (r: Round2)
        requires
            old(rng).wf(),
            round1.wf(),
        ensures
            final (rng).wf(),
            r.wf(),
            r.context == round1.context,
            r.k_ciphertexts == round1.k_ciphertexts,
            r.g_ciphertexts == round1.g_ciphertexts,
            forall|k: int|
                0 <= k < r.context.num_parties - 1 ==> {
                    let j = other_idx(r.context.my_idx as int, k);
                    let nj = r.other_modulus(k);
                    &&& (#[trigger] r.msgs@[k]).gamma.rep() == point_of(r.context.gamma.val())
                    &&& r.msgs@[k].d.c_val() == d_val(
                        nj,
                        r.k_ciphertexts@[j].c_val(),
                        r.context.gamma.val(),
                        r.betas@[k].ival(),
                        r.s_rands@[k].val(),
                    )
                    &&& r.msgs@[k].d_hat.c_val() == d_val(
                        nj,
                        r.k_ciphertexts@[j].c_val(),
                        r.context.key_share.secret.secret_share.val(),
                        r.betas_hat@[k].ival(),
                        r.shat_rands@[k].val(),
                    )
                    &&& r.msgs@[k].f.c_val() == enc_val(
                        r.context.own_modulus(),
                        (r.betas@[k].ival() % (r.context.own_modulus() as int)) as nat,
                        r.r_rands@[k].val(),
                    )
                    &&& r.msgs@[k].f_hat.c_val() == enc_val(
                        r.context.own_modulus(),
                        (r.betas_hat@[k].ival() % (r.context.own_modulus() as int)) as nat,
                        r.rhat_rands@[k].val(),
                    )
                    &&& r.msgs@[k].psi.pk0.n_val() == nj
                    &&& r.msgs@[k].psi.pk1.n_val() == r.context.own_modulus()
                    &&& r.msgs@[k].psi.binding@ == crate::sigma::affg_binding(
                        r.context.key_share.public@[j].paillier_pk.rep(),
                        r.context.key_share.public@[r.context.my_idx as int].paillier_pk.rep(),
                        r.k_ciphertexts@[j].rep(),
                        r.msgs@[k].d.rep(),
                        r.msgs@[k].f.rep(),
                        r.msgs@[k].gamma.rep(),
                        r.context.shared_randomness@,
                        r.context.my_idx as nat,
                    )
                    &&& r.msgs@[k].psi_hat.pk0.n_val() == nj
                    &&& r.msgs@[k].psi_hat.pk1.n_val() == r.context.own_modulus()
                    &&& r.msgs@[k].psi_hat.binding@ == crate::sigma::affg_binding(
                        r.context.key_share.public@[j].paillier_pk.rep(),
                        r.context.key_share.public@[r.context.my_idx as int].paillier_pk.rep(),
                        r.k_ciphertexts@[j].rep(),
                        r.msgs@[k].d_hat.rep(),
                        r.msgs@[k].f_hat.rep(),
                        r.context.key_share.public@[r.context.my_idx as int].x.rep(),
                        r.context.shared_randomness@,
                        r.context.my_idx as nat,
                    )
                    &&& r.msgs@[k].psi_hat_prime.pk.n_val() == r.context.own_modulus()
                    &&& r.msgs@[k].psi_hat_prime.binding@ == crate::sigma::log_star_binding(
                        r.context.key_share.public@[r.context.my_idx as int].paillier_pk.rep(),
                        r.g_ciphertexts@[r.context.my_idx as int].rep(),
                        point_of(1),
                        r.msgs@[k].gamma.rep(),
                        r.context.shared_randomness@,
                        r.context.my_idx as nat,
                    )
                },
    {
        let n = round1.context.num_parties;
        let me = round1.context.my_idx;
        proof {
            assert(round1.context.key_share.public@[me as int].wf());
        }
        let own_pk = round1.context.key_share.public[me].paillier_pk.clone_key();
        let own_x = round1.context.key_share.public[me].x.dup();
        let gamma_point = round1.context.gamma.mul_by_generator();
        let gamma_bytes = round1.context.gamma.to_be_bytes();
        let x_bytes = round1.context.key_share.secret.secret_share.to_be_bytes();
        let one = Scalar::one();
        let gen_point = one.mul_by_generator();
        proof {
            lemma_q_below_modulus(own_pk.n_val());
        }
        let mut betas: Vec<SignedBig> = Vec::new();
        let mut betas_hat: Vec<SignedBig> = Vec::new();
        let mut s_rands: Vec<Randomizer> = Vec::new();
        let mut shat_rands: Vec<Randomizer> = Vec::new();
        let mut r_rands: Vec<Randomizer> = Vec::new();
        let mut rhat_rands: Vec<Randomizer> = Vec::new();
        let mut msgs: Vec<Round2Direct> = Vec::new();
        let mut i: usize = 0;
        while i < n
            invariant
                old(rng).wf(),
                rng.wf(),
                round1.wf(),
                n == round1.context.num_parties,
                me == round1.context.my_idx,
                own_pk.n_val() == round1.context.own_modulus(),
                own_pk.rep() == round1.context.key_share.public@[me as int].paillier_pk.rep(),
                own_pk.wf(),
                own_pk.n_val() >= crate::bytes::pow256(66),
                q_order() < own_pk.n_val(),
                own_x.rep() == round1.context.key_share.public@[me as int].x.rep(),
                own_x.wf(),
                own_x.rep().len() == 33,
                gen_point.rep() == point_of(1),
                gen_point.wf(),
                gen_point.rep().len() <= 33,
                gamma_point.rep() == point_of(round1.context.gamma.val()),
                gamma_point.wf(),
                gamma_point.rep().len() <= 33,
                gamma_bytes@.len() == 32,
                crate::bytes::be_val(gamma_bytes@) == round1.context.gamma.val(),
                x_bytes@.len() == 32,
                crate::bytes::be_val(x_bytes@)
                    == round1.context.key_share.secret.secret_share.val(),
                0 <= i <= n,
                betas@.len() == count_below(me as int, i as int),
                betas_hat@.len() == betas@.len(),
                s_rands@.len() == betas@.len(),
                shat_rands@.len() == betas@.len(),
                r_rands@.len() == betas@.len(),
                rhat_rands@.len() == betas@.len(),
                msgs@.len() == betas@.len(),
                forall|k: int|
                    0 <= k < betas@.len() ==> {
                        let j = other_idx(me as int, k);
                        let nj =
                            round1.context.key_share.public@[j].paillier_pk.n_val();
                        &&& (#[trigger] msgs@[k]).gamma.rep() == point_of(
                            round1.context.gamma.val(),
                        )
                        &&& msgs@[k].d.c_val() == d_val(
                            nj,
                            round1.k_ciphertexts@[j].c_val(),
                            round1.context.gamma.val(),
                            betas@[k].ival(),
                            s_rands@[k].val(),
                        )
                        &&& msgs@[k].d_hat.c_val() == d_val(
                            nj,
                            round1.k_ciphertexts@[j].c_val(),
                            round1.context.key_share.secret.secret_share.val(),
                            betas_hat@[k].ival(),
                            shat_rands@[k].val(),
                        )
                        &&& msgs@[k].f.c_val() == enc_val(
                            round1.context.own_modulus(),
                            (betas@[k].ival() % (round1.context.own_modulus() as int)) as nat,
                            r_rands@[k].val(),
                        )
                        &&& msgs@[k].f_hat.c_val() == enc_val(
                            round1.context.own_modulus(),
                            (betas_hat@[k].ival() % (
                            round1.context.own_modulus() as int)) as nat,
                            rhat_rands@[k].val(),
                        )
                        &&& msgs@[k].psi.pk0.n_val() == nj
                        &&& msgs@[k].psi.pk1.n_val() == round1.context.own_modulus()
                        &&& msgs@[k].psi.binding@ == crate::sigma::affg_binding(
                            round1.context.key_share.public@[j].paillier_pk.rep(),
                            round1.context.key_share.public@[me as int].paillier_pk.rep(),
                            round1.k_ciphertexts@[j].rep(),
                            msgs@[k].d.rep(),
                            msgs@[k].f.rep(),
                            msgs@[k].gamma.rep(),
                            round1.context.shared_randomness@,
                            me as nat,
                        )
                        &&& msgs@[k].psi_hat.pk0.n_val() == nj
                        &&& msgs@[k].psi_hat.pk1.n_val() == round1.context.own_modulus()
                        &&& msgs@[k].psi_hat.binding@ == crate::sigma::affg_binding(
                            round1.context.key_share.public@[j].paillier_pk.rep(),
                            round1.context.key_share.public@[me as int].paillier_pk.rep(),
                            round1.k_ciphertexts@[j].rep(),
                            msgs@[k].d_hat.rep(),
                            msgs@[k].f_hat.rep(),
                            round1.context.key_share.public@[me as int].x.rep(),
                            round1.context.shared_randomness@,
                            me as nat,
                        )
                        &&& msgs@[k].psi_hat_prime.pk.n_val() == round1.context.own_modulus()
                        &&& msgs@[k].psi_hat_prime.binding@ == crate::sigma::log_star_binding(
                            round1.context.key_share.public@[me as int].paillier_pk.rep(),
                            round1.g_ciphertexts@[me as int].rep(),
                            point_of(1),
                            msgs@[k].gamma.rep(),
                            round1.context.shared_randomness@,
                            me as nat,
                        )
                        &&& msgs@[k].encodable()
                    },
                forall|k: int|
                    0 <= k < betas@.len() ==> (#[trigger] betas@[k]).mag_val()
                        < crate::bytes::pow256(LP_BYTES as nat),
                forall|k: int|
                    0 <= k < betas_hat@.len() ==> (#[trigger] betas_hat@[k]).mag_val()
                        < crate::bytes::pow256(LP_BYTES as nat),
            decreases n - i,
        {
            if i != me {
                let target_pk = round1.context.key_share.public[i].paillier_pk.clone_key();
                proof {
                    lemma_q_below_modulus(target_pk.n_val());
                    crate::bytes::lemma_pow256_positive(66);
                    vstd::arithmetic::power::lemma_pow_increases(256, LP_BYTES as nat, 66);
                }
                let beta = SignedBig::random_bounded_bytes(rng, LP_BYTES);
                let beta_hat = SignedBig::random_bounded_bytes(rng, LP_BYTES);
                let s = Randomizer::random(rng, &target_pk);
                let s_hat = Randomizer::random(rng, &target_pk);
                let rr = Randomizer::random(rng, &own_pk);
                let r_hat = Randomizer::random(rng, &own_pk);
                let cap_f = Ciphertext::new_with_randomizer_signed(&own_pk, &beta, &rr);
                let cap_f_hat = Ciphertext::new_with_randomizer_signed(&own_pk, &beta_hat, &r_hat);
                let kct = round1.k_ciphertexts[i].clone_ct();
                let d = kct.homomorphic_mul(&target_pk, &gamma_bytes).homomorphic_add(
                    &target_pk,
                    &Ciphertext::new_with_randomizer_signed(&target_pk, &beta.negate(), &s),
                );
                let d_hat = kct.homomorphic_mul(&target_pk, &x_bytes).homomorphic_add(
                    &target_pk,
                    &Ciphertext::new_with_randomizer_signed(&target_pk, &beta_hat.negate(), &s_hat),
                );
                let psi = AffGProof::random(
                    &target_pk,
                    &own_pk,
                    &kct,
                    &d,
                    &cap_f,
                    &gamma_point,
                    &round1.context.shared_randomness,
                    me as u32,
                );
                let psi_hat = AffGProof::random(
                    &target_pk,
                    &own_pk,
                    &kct,
                    &d_hat,
                    &cap_f_hat,
                    &own_x,
                    &round1.context.shared_randomness,
                    me as u32,
                );
                let psi_hat_prime = LogStarProof::random(
                    &own_pk,
                    &round1.g_ciphertexts[me],
                    &gen_point,
                    &gamma_point,
                    &round1.context.shared_randomness,
                    me as u32,
                );
                let msg = Round2Direct {
                    gamma: gamma_point.dup(),
                    d,
                    d_hat,
                    f: cap_f,
                    f_hat: cap_f_hat,
                    psi,
                    psi_hat,
                    psi_hat_prime,
                };
                let ghost kidx = betas@.len() as int;
                betas.push(beta);
                betas_hat.push(beta_hat);
                s_rands.push(s);
                shat_rands.push(s_hat);
                r_rands.push(rr);
                rhat_rands.push(r_hat);
                msgs.push(msg);
                proof {
                    assert(other_idx(me as int, kidx) == i);
                    let nj = round1.context.key_share.public@[i as int].paillier_pk.n_val();
                    assert(target_pk.n_val() == nj);
                    assert(msgs@[kidx].d.c_val() == d_val(
                        nj,
                        round1.k_ciphertexts@[i as int].c_val(),
                        round1.context.gamma.val(),
                        betas@[kidx].ival(),
                        s_rands@[kidx].val(),
                    ));
                    assert(msgs@[kidx].d_hat.c_val() == d_val(
                        nj,
                        round1.k_ciphertexts@[i as int].c_val(),
                        round1.context.key_share.secret.secret_share.val(),
                        betas_hat@[kidx].ival(),
                        shat_rands@[kidx].val(),
                    ));
                }
            }
            i += 1;
        }
        proof {
            assert(count_below(me as int, n as int) == n - 1);
        }
        Round2 {
            context: round1.context,
            k_ciphertexts: round1.k_ciphertexts,
            g_ciphertexts: round1.g_ciphertexts,
            betas,
            betas_hat,
            s_rands,
            shat_rands,
            r_rands,
            rhat_rands,
            msgs,
        }
    }

    /// The outgoing messages, keyed by recipient index.
    pub fn to_send(&self) -> (r: Vec<(PartyIdx, Round2Direct)>)
        requires
            self.wf(),
        ensures
            r@.len() == self.context.num_parties - 1,
            forall|k: int|
                0 <= k < r@.len() ==> {
                    &&& (#[trigger] r@[k]).0.spec_idx() == other_idx(
                        self.context.my_idx as int,
                        k,
                    )
                    &&& r@[k].1.chunks() == self.msgs@[k].chunks()
                    &&& r@[k].1.encodable()
                },
    {
        let n = self.context.num_parties;
        let me = self.context.my_idx;
        let mut out: Vec<(PartyIdx, Round2Direct)> = Vec::new();
        let mut k: usize = 0;
        while k < n - 1
            invariant
                self.wf(),
                n == self.context.num_parties,
                me == self.context.my_idx,
                0 <= k <= n - 1,
                out@.len() == k,
                forall|j: int|
                    0 <= j < k ==> {
                        &&& (#[trigger] out@[j]).0.spec_idx() == other_idx(me as int, j)
                        &&& out@[j].1.chunks() == self.msgs@[j].chunks()
                        &&& out@[j].1.encodable()
                    },
            decreases n - 1 - k,
        {
            let j = if k < me {
                k
            } else {
                k + 1
            };
            out.push((PartyIdx::from_usize(j), self.msgs[k].dup()));
            k += 1;
        }
        out
    }

    /// The proof conditions an incoming round-two message must meet.
    /// The `psi` proof must carry the verifier's and the sender's keys
    /// and a transcript over the verifier's `K` ciphertext, the message's
    /// `D`, `F` and `Gamma`, the session randomness and the sender.
    pub open spec fn psi_ok(&self, from: int, msg: Round2Direct) -> bool {
        &&& msg.psi.pk0.n_val() == self.context.own_modulus()
        &&& msg.psi.pk1.n_val() == self.context.key_share.public@[from].paillier_pk.n_val()
        &&& msg.psi.binding@ == crate::sigma::affg_binding(
            self.context.key_share.public@[self.context.my_idx as int].paillier_pk.rep(),
            self.context.key_share.public@[from].paillier_pk.rep(),
            self.k_ciphertexts@[self.context.my_idx as int].rep(),
            msg.d.rep(),
            msg.f.rep(),
            msg.gamma.rep(),
            self.context.shared_randomness@,
            from as nat,
        )
    }

    /// The `psi_hat` proof binds `D_hat`, `F_hat` and the sender's public
    /// share instead.
    pub open spec fn psi_hat_ok(&self, from: int, msg: Round2Direct) -> bool {
        &&& msg.psi_hat.pk0.n_val() == self.context.own_modulus()
        &&& msg.psi_hat.pk1.n_val() == self.context.key_share.public@[from].paillier_pk.n_val()
        &&& msg.psi_hat.binding@ == crate::sigma::affg_binding(
            self.context.key_share.public@[self.context.my_idx as int].paillier_pk.rep(),
            self.context.key_share.public@[from].paillier_pk.rep(),
            self.k_ciphertexts@[self.context.my_idx as int].rep(),
            msg.d_hat.rep(),
            msg.f_hat.rep(),
            self.context.key_share.public@[from].x.rep(),
            self.context.shared_randomness@,
            from as nat,
        )
    }

    /// The discrete-log proof binds the sender's `G` ciphertext, the
    /// curve generator as base, and the message's `Gamma` as image.
    pub open spec fn log_star_ok(&self, from: int, msg: Round2Direct) -> bool {
        &&& msg.psi_hat_prime.pk.n_val()
            == self.context.key_share.public@[from].paillier_pk.n_val()
        &&& msg.psi_hat_prime.binding@ == crate::sigma::log_star_binding(
            self.context.key_share.public@[from].paillier_pk.rep(),
            self.g_ciphertexts@[from].rep(),
            point_of(1),
            msg.gamma.rep(),
            self.context.shared_randomness@,
            from as nat,
        )
    }

    /// The decrypted masked product lies within the asserted bound.
    pub open spec fn range_ok(&self, msg: Round2Direct) -> bool {
        abs_of(self.my_decryption(msg.d.c_val())) < crate::bytes::pow256(ALPHA_BOUND_BYTES as nat)
    }

    /// The signed plaintext this party's key decrypts a ciphertext to.
    pub open spec fn my_decryption(&self, c: nat) -> int {
        signed_decode(
            self.context.key_share.secret.paillier_sk.n_val(),
            dec_val(
                self.context.key_share.secret.paillier_sk.n_val(),
                self.context.key_share.secret.paillier_sk.phi_val(),
                self.context.key_share.secret.paillier_sk.mu_val(),
                c,
            ),
        )
    }

    /// Verifies the three proofs, decrypts the two masked products, and
    /// asserts the bound on the first; each failure is attributed to the
    /// sender.
    pub fn verify_received(&self, from: PartyIdx, msg: Round2Direct) -> (r: Result<
        Round2Payload,
        Error,
    >)
        requires
            self.wf(),
            0 <= from.spec_idx() < self.context.num_parties,
            msg.valid(),
            msg.encodable(),
        ensures
            match r {
                Ok(p) => {
                    &&& self.psi_ok(from.spec_idx(), msg)
                    &&& self.psi_hat_ok(from.spec_idx(), msg)
                    &&& self.log_star_ok(from.spec_idx(), msg)
                    &&& self.range_ok(msg)
                    &&& p.wf()
                    &&& p.gamma.rep() == msg.gamma.rep()
                    &&& p.alpha.ival() == self.my_decryption(msg.d.c_val())
                    &&& p.alpha.mag_val() < crate::bytes::pow256(ALPHA_BOUND_BYTES as nat)
                    &&& p.alpha_hat.val() as int == self.my_decryption(msg.d_hat.c_val()) % (
                    q_order() as int)
                    &&& p.cap_d.c_val() == msg.d.c_val()
                },
                Err(e) => {
                    &&& !self.psi_ok(from.spec_idx(), msg) ==> e == Error::TheirFault {
                        party: from,
                        error: TheirFault::VerificationFail(ProofKind::AffGPsi),
                    }
                    &&& self.psi_ok(from.spec_idx(), msg) && !self.psi_hat_ok(
                        from.spec_idx(),
                        msg,
                    ) ==> e == Error::TheirFault {
                        party: from,
                        error: TheirFault::VerificationFail(ProofKind::AffGPsiHat),
                    }
                    &&& self.psi_ok(from.spec_idx(), msg) && self.psi_hat_ok(from.spec_idx(), msg)
                        && !self.log_star_ok(from.spec_idx(), msg) ==> e == Error::TheirFault {
                        party: from,
                        error: TheirFault::VerificationFail(ProofKind::LogStar),
                    }
                    &&& self.psi_ok(from.spec_idx(), msg) && self.psi_hat_ok(from.spec_idx(), msg)
                        && self.log_star_ok(from.spec_idx(), msg) ==> (e == Error::TheirFault {
                        party: from,
                        error: TheirFault::VerificationFail(ProofKind::RangeBound),
                    } && !self.range_ok(msg))
                    &&& !(self.psi_ok(from.spec_idx(), msg) && self.psi_hat_ok(
                        from.spec_idx(),
                        msg,
                    ) && self.log_star_ok(from.spec_idx(), msg) && self.range_ok(msg))
                },
            },
    {
        let me = self.context.my_idx;
        let fidx = from.as_usize();
        let own_pk = &self.context.key_share.public[me].paillier_pk;
        let from_pk = &self.context.key_share.public[fidx].paillier_pk;
        let sr = &self.context.shared_randomness;
        proof {
            assert(self.context.key_share.public@[fidx as int].wf());
            assert(self.context.key_share.public@[me as int].wf());
            assert(msg.chunks()[0].len() < 0x100000000);
            assert(msg.chunks()[1].len() < 0x100000000);
            assert(msg.chunks()[2].len() < 0x100000000);
            assert(msg.chunks()[3].len() < 0x100000000);
            assert(msg.chunks()[4].len() < 0x100000000);
        }
        if !msg.psi.verify(
            own_pk,
            from_pk,
            &self.k_ciphertexts[me],
            &msg.d,
            &msg.f,
            &msg.gamma,
            sr,
            fidx as u32,
        ) {
            return Err(
                Error::TheirFault {
                    party: from,
                    error: TheirFault::VerificationFail(ProofKind::AffGPsi),
                },
            );
        }
        if !msg.psi_hat.verify(
            own_pk,
            from_pk,
            &self.k_ciphertexts[me],
            &msg.d_hat,
            &msg.f_hat,
            &self.context.key_share.public[fidx].x,
            sr,
            fidx as u32,
        ) {
            return Err(
                Error::TheirFault {
                    party: from,
                    error: TheirFault::VerificationFail(ProofKind::AffGPsiHat),
                },
            );
        }
        let one = Scalar::one();
        let gen_point = one.mul_by_generator();
        if !msg.psi_hat_prime.verify(
            from_pk,
            &self.g_ciphertexts[fidx],
            &gen_point,
            &msg.gamma,
            sr,
            fidx as u32,
        ) {
            return Err(
                Error::TheirFault {
                    party: from,
                    error: TheirFault::VerificationFail(ProofKind::LogStar),
                },
            );
        }
        let sk = &self.context.key_share.secret.paillier_sk;
        let alpha = msg.d.decrypt_signed(sk);
        proof {
            crate::paillier::lemma_signed_shape(&alpha);
        }
        if !alpha.magnitude_below(ALPHA_BOUND_BYTES) {
            return Err(
                Error::TheirFault {
                    party: from,
                    error: TheirFault::VerificationFail(ProofKind::RangeBound),
                },
            );
        }
        let alpha_hat = msg.d_hat.decrypt_signed(sk).to_scalar();
        Ok(
            Round2Payload {
                gamma: msg.gamma,
                alpha,
                alpha_hat,
                cap_d: msg.d,
            },
        )
    }
}

/// The absolute value of an integer.
pub open spec fn abs_of(x: int) -> int {
    if x < 0 {
        0 - x
    } else {
        x
    }
}

/// How many of `0..i` differ from `me`.
pub open spec fn count_below(me: int, i: int) -> int {
    if i <= me {
        i
    } else {
        i - 1
    }
}

/// The gamma encodings in index order, the own `Gamma` at `me`.
pub open spec fn gamma_reps(
    own_gamma_val: nat,
    payloads: HoleVec<Round2Payload>,
    n: int,
    me: int,
) -> Seq<Seq<u8>> {
    Seq::new(
        n as nat,
        |i: int|
            if i == me {
                point_of(own_gamma_val)
            } else {
                payloads.view_at(i).unwrap().gamma.rep()
            },
    )
}

/// The decrypted masked products of the other parties, in sender order.
pub open spec fn alpha_ivals(payloads: HoleVec<Round2Payload>, n: int, me: int) -> Seq<int> {
    Seq::new((n - 1) as nat, |k: int| payloads.view_at(other_idx(me, k)).unwrap().alpha.ival())
}

/// The reduced hat-products of the other parties, in sender order.
pub open spec fn alpha_hat_vals(payloads: HoleVec<Round2Payload>, n: int, me: int) -> Seq<int> {
    Seq::new(
        (n - 1) as nat,
        |k: int| payloads.view_at(other_idx(me, k)).unwrap().alpha_hat.val() as int,
    )
}

/// The signed values of a sequence of signed integers.
pub open spec fn signed_ivals(s: Seq<SignedBig>) -> Seq<int> {
    s.map_values(|b: SignedBig| b.ival())
}

/// Every non-hole payload slot holds a structurally valid payload.
pub open spec fn round2_payloads_wf(payloads: HoleVec<Round2Payload>, n: int, me: int) -> bool {
    forall|i: int|
        0 <= i < n && i != me ==> (#[trigger] payloads.view_at(i)).unwrap().wf()
}

impl Round2 {
    /// Combines the payloads: `Gamma` is the index-ordered sum of all
    /// gamma points; `delta_i = gamma_i·k_i + sum(alpha + beta)` and
    /// `chi_i = x_i·k_i + sum(alpha_hat + beta_hat)` in the scalar field;
    /// `Delta_i = Gamma·k_i`.
    pub fn finalize(self, payloads: HoleVec<Round2Payload>) -> (r: Round3)
        requires
            self.wf(),
            payloads.wf(),
            payloads.spec_len() == self.context.num_parties,
            payloads.hole_idx() == self.context.my_idx,
            round2_payloads_wf(payloads, self.context.num_parties as int, self.context.my_idx as int),
        ensures
            r.context == self.context,
            r.k_ciphertexts == self.k_ciphertexts,
            r.g_ciphertexts == self.g_ciphertexts,
            r.wf(),
            r.big_gamma.rep() == pt_fold(
                gamma_reps(
                    self.context.gamma.val(),
                    payloads,
                    self.context.num_parties as int,
                    self.context.my_idx as int,
                )[0],
                gamma_reps(
                    self.context.gamma.val(),
                    payloads,
                    self.context.num_parties as int,
                    self.context.my_idx as int,
                ).skip(1),
            ),
            r.delta.val() as int == (self.context.gamma.val() * self.context.ephemeral_scalar_share.val()
                + int_sum(
                alpha_ivals(payloads, self.context.num_parties as int, self.context.my_idx as int),
            ) + int_sum(signed_ivals(self.betas@))) % (q_order() as int),
            r.product_share.val() as int == (self.context.key_share.secret.secret_share.val()
                * self.context.ephemeral_scalar_share.val() + int_sum(
                alpha_hat_vals(payloads, self.context.num_parties as int, self.context.my_idx as int),
            ) + int_sum(signed_ivals(self.betas_hat@))) % (q_order() as int),
            r.big_delta.rep() == point_mul(
                r.big_gamma.rep(),
                self.context.ephemeral_scalar_share.val(),
            ),
            r.cap_ds@.len() == self.context.num_parties - 1,
            forall|k: int|
                0 <= k < self.context.num_parties - 1 ==> (#[trigger] r.cap_ds@[k]).c_val()
                    == payloads.view_at(
                    other_idx(self.context.my_idx as int, k),
                ).unwrap().cap_d.c_val(),
            forall|k: int|
                0 <= k < self.context.num_parties - 1 ==> (#[trigger] r.cap_fs@[k]).c_val()
                    == self.msgs@[k].f.c_val(),
    {
        let n = self.context.num_parties;
        let me = self.context.my_idx;
        let ghost qi = q_order() as int;
        let ghost greps = gamma_reps(self.context.gamma.val(), payloads, n as int, me as int);
        let ghost aseq = alpha_ivals(payloads, n as int, me as int);
        let ghost ahseq = alpha_hat_vals(payloads, n as int, me as int);
        let ghost bseq = signed_ivals(self.betas@);
        let ghost bhseq = signed_ivals(self.betas_hat@);

        // Gamma: index-ordered point sum.
        let own_gamma_pt = self.context.gamma.mul_by_generator();
        let mut gammas: Vec<Point> = Vec::new();
        let mut i: usize = 0;
        while i < n
            invariant
                self.wf(),
                payloads.wf(),
                payloads.spec_len() == n,
                payloads.hole_idx() == me,
                round2_payloads_wf(payloads, n as int, me as int),
                n == self.context.num_parties,
                me == self.context.my_idx,
                greps == gamma_reps(self.context.gamma.val(), payloads, n as int, me as int),
                own_gamma_pt.rep() == point_of(self.context.gamma.val()),
                own_gamma_pt.wf(),
                own_gamma_pt.rep().len() <= 33,
                0 <= i <= n,
                gammas@.len() == i,
                forall|t: int| 0 <= t < i ==> (#[trigger] gammas@[t]).rep() == greps[t],
                forall|t: int| 0 <= t < i ==> (#[trigger] gammas@[t]).wf(),
            decreases n - i,
        {
            if i == me {
                gammas.push(own_gamma_pt.dup());
            } else {
                let p = payloads.get(i);
                proof {
                    assert(Some(*p) == payloads.view_at(i as int));
                    assert(payloads.view_at(i as int).unwrap().wf());
                }
                gammas.push(p.gamma.dup());
            }
            i += 1;
        }
        let first = gammas[0].dup();
        let mut rest: Vec<Point> = Vec::new();
        let mut t: usize = 1;
        while t < n
            invariant
                n == gammas@.len(),
                forall|u: int| 0 <= u < n ==> (#[trigger] gammas@[u]).wf(),
                forall|u: int| 0 <= u < n ==> (#[trigger] gammas@[u]).rep() == greps[u],
                1 <= t <= n,
                rest@.len() == t - 1,
                forall|u: int| 0 <= u < t - 1 ==> (#[trigger] rest@[u]).wf(),
                forall|u: int| 0 <= u < t - 1 ==> (#[trigger] rest@[u]).rep() == greps[u + 1],
            decreases n - t,
        {
            rest.push(gammas[t].dup());
            t += 1;
        }
        proof {
            assert(point_reps(rest@) =~= greps.skip(1));
        }
        let big_gamma = crate::group::point_fold_sum(first, &rest);
        let big_delta = big_gamma.mul(&self.context.ephemeral_scalar_share);

        // delta_i.
        proof {
            crate::group::lemma_q_positive();
        }
        let mut acc = self.context.gamma.mul(&self.context.ephemeral_scalar_share);
        let ghost base = self.context.gamma.val() * self.context.ephemeral_scalar_share.val();
        proof {
            assert(aseq.take(0) =~= Seq::<int>::empty());
            vstd::arithmetic::div_mod::lemma_mod_bound(base as int, qi);
        }
        let mut k: usize = 0;
        while k < n - 1
            invariant
                self.wf(),
                payloads.wf(),
                payloads.spec_len() == n,
                payloads.hole_idx() == me,
                round2_payloads_wf(payloads, n as int, me as int),
                n == self.context.num_parties,
                me == self.context.my_idx,
                qi == q_order() as int,
                base == self.context.gamma.val() * self.context.ephemeral_scalar_share.val(),
                aseq == alpha_ivals(payloads, n as int, me as int),
                0 <= k <= n - 1,
                acc.wf(),
                acc.val() as int == (base + int_sum(aseq.take(k as int))) % qi,
            decreases n - 1 - k,
        {
            let j = if k < me {
                k
            } else {
                k + 1
            };
            let p = payloads.get(j);
            proof {
                assert(Some(*p) == payloads.view_at(j as int));
            }
            let a_sc = p.alpha.to_scalar();
            let next = acc.add(&a_sc);
            proof {
                let sum_pre = base + int_sum(aseq.take(k as int));
                let a = aseq[k as int];
                assert(a == p.alpha.ival());
                assert(int_sum(aseq.take(k + 1)) == int_sum(aseq.take(k as int)) + a) by {
                    assert(aseq.take(k + 1).drop_last() =~= aseq.take(k as int));
                    assert(aseq.take(k + 1).last() == a);
                }
                assert(((sum_pre % qi) + (a % qi)) % qi == (sum_pre + a) % qi) by {
                    vstd::arithmetic::div_mod::lemma_add_mod_noop(sum_pre, a, qi);
                }
            }
            acc = next;
            k += 1;
        }
        proof {
            assert(aseq.take((n - 1) as int) =~= aseq);
        }
        let mut kb: usize = 0;
        while kb < n - 1
            invariant
                self.wf(),
                n == self.context.num_parties,
                qi == q_order() as int,
                base == self.context.gamma.val() * self.context.ephemeral_scalar_share.val(),
                bseq == signed_ivals(self.betas@),
                aseq == alpha_ivals(payloads, n as int, me as int),
                0 <= kb <= n - 1,
                acc.wf(),
                acc.val() as int == (base + int_sum(aseq) + int_sum(bseq.take(kb as int))) % qi,
            decreases n - 1 - kb,
        {
            let b_sc = self.betas[kb].to_scalar();
            let next = acc.add(&b_sc);
            proof {
                let sum_pre = base + int_sum(aseq) + int_sum(bseq.take(kb as int));
                let b = bseq[kb as int];
                assert(b == self.betas@[kb as int].ival());
                assert(int_sum(bseq.take(kb + 1)) == int_sum(bseq.take(kb as int)) + b) by {
                    assert(bseq.take(kb + 1).drop_last() =~= bseq.take(kb as int));
                    assert(bseq.take(kb + 1).last() == b);
                }
                assert(((sum_pre % qi) + (b % qi)) % qi == (sum_pre + b) % qi) by {
                    vstd::arithmetic::div_mod::lemma_add_mod_noop(sum_pre, b, qi);
                }
            }
            acc = next;
            kb += 1;
        }
        proof {
            assert(bseq.take((n - 1) as int) =~= bseq);
        }
        let delta = acc;

        // chi_i.
        let mut chi = self.context.key_share.secret.secret_share.mul(
            &self.context.ephemeral_scalar_share,
        );
        let ghost xbase = self.context.key_share.secret.secret_share.val()
            * self.context.ephemeral_scalar_share.val();
        proof {
            assert(ahseq.take(0) =~= Seq::<int>::empty());
            vstd::arithmetic::div_mod::lemma_mod_bound(xbase as int, qi);
        }
        let mut kc: usize = 0;
        while kc < n - 1
            invariant
                self.wf(),
                payloads.wf(),
                payloads.spec_len() == n,
                payloads.hole_idx() == me,
                round2_payloads_wf(payloads, n as int, me as int),
                n == self.context.num_parties,
                me == self.context.my_idx,
                qi == q_order() as int,
                xbase == self.context.key_share.secret.secret_share.val()
                    * self.context.ephemeral_scalar_share.val(),
                ahseq == alpha_hat_vals(payloads, n as int, me as int),
                0 <= kc <= n - 1,
                chi.wf(),
                chi.val() as int == (xbase + int_sum(ahseq.take(kc as int))) % qi,
            decreases n - 1 - kc,
        {
            let j = if kc < me {
                kc
            } else {
                kc + 1
            };
            let p = payloads.get(j);
            proof {
                assert(Some(*p) == payloads.view_at(j as int));
                assert(payloads.view_at(j as int).unwrap().wf());
            }
            let a_sc = p.alpha_hat.dup();
            let next = chi.add(&a_sc);
            proof {
                let sum_pre = xbase + int_sum(ahseq.take(kc as int));
                let a = ahseq[kc as int];
                assert(a == p.alpha_hat.val() as int);
                assert(int_sum(ahseq.take(kc + 1)) == int_sum(ahseq.take(kc as int)) + a) by {
                    assert(ahseq.take(kc + 1).drop_last() =~= ahseq.take(kc as int));
                    assert(ahseq.take(kc + 1).last() == a);
                }
                vstd::arithmetic::div_mod::lemma_small_mod(p.alpha_hat.val(), q_order());
                assert(a % qi == a);
                assert(((sum_pre % qi) + (a % qi)) % qi == (sum_pre + a) % qi) by {
                    vstd::arithmetic::div_mod::lemma_add_mod_noop(sum_pre, a, qi);
                }
            }
            chi = next;
            kc += 1;
        }
        proof {
            assert(ahseq.take((n - 1) as int) =~= ahseq);
        }
        let mut kd: usize = 0;
        while kd < n - 1
            invariant
                self.wf(),
                n == self.context.num_parties,
                qi == q_order() as int,
                xbase == self.context.key_share.secret.secret_share.val()
                    * self.context.ephemeral_scalar_share.val(),
                bhseq == signed_ivals(self.betas_hat@),
                ahseq == alpha_hat_vals(payloads, n as int, me as int),
                0 <= kd <= n - 1,
                chi.wf(),
                chi.val() as int == (xbase + int_sum(ahseq) + int_sum(bhseq.take(kd as int))) % qi,
            decreases n - 1 - kd,
        {
            let b_sc = self.betas_hat[kd].to_scalar();
            let next = chi.add(&b_sc);
            proof {
                let sum_pre = xbase + int_sum(ahseq) + int_sum(bhseq.take(kd as int));
                let b = bhseq[kd as int];
                assert(b == self.betas_hat@[kd as int].ival());
                assert(int_sum(bhseq.take(kd + 1)) == int_sum(bhseq.take(kd as int)) + b) by {
                    assert(bhseq.take(kd + 1).drop_last() =~= bhseq.take(kd as int));
                    assert(bhseq.take(kd + 1).last() == b);
                }
                assert(((sum_pre % qi) + (b % qi)) % qi == (sum_pre + b) % qi) by {
                    vstd::arithmetic::div_mod::lemma_add_mod_noop(sum_pre, b, qi);
                }
            }
            chi = next;
            kd += 1;
        }
        proof {
            assert(bhseq.take((n - 1) as int) =~= bhseq);
        }
        let product_share = chi;

        // The ciphertexts kept for the identification sub-protocol.
        let mut cap_ds: Vec<Ciphertext> = Vec::new();
        let mut cap_fs: Vec<Ciphertext> = Vec::new();
        let mut ke: usize = 0;
        while ke < n - 1
            invariant
                self.wf(),
                payloads.wf(),
                payloads.spec_len() == n,
                payloads.hole_idx() == me,
                n == self.context.num_parties,
                me == self.context.my_idx,
                0 <= ke <= n - 1,
                cap_ds@.len() == ke,
                cap_fs@.len() == ke,
                forall|u: int|
                    0 <= u < ke ==> (#[trigger] cap_ds@[u]).c_val() == payloads.view_at(
                        other_idx(me as int, u),
                    ).unwrap().cap_d.c_val(),
                forall|u: int|
                    0 <= u < ke ==> (#[trigger] cap_fs@[u]).c_val() == self.msgs@[u].f.c_val(),
            decreases n - 1 - ke,
        {
            let j = if ke < me {
                ke
            } else {
                ke + 1
            };
            let p = payloads.get(j);
            proof {
                assert(Some(*p) == payloads.view_at(j as int));
            }
            cap_ds.push(p.cap_d.clone_ct());
            cap_fs.push(self.msgs[ke].f.clone_ct());
            ke += 1;
        }

        Round3 {
            context: self.context,
            delta,
            product_share,
            big_delta,
            big_gamma,
            k_ciphertexts: self.k_ciphertexts,
            g_ciphertexts: self.g_ciphertexts,
            cap_ds,
            cap_fs,
        }
    }
}

/// Round three: broadcast the reconstructed `delta` share and `Delta`
/// point, then check the aggregate against the curve.
pub struct Round3 {
    pub context: Context,
    pub delta: Scalar,
    pub product_share: Scalar,
    pub big_delta: Point,
    pub big_gamma: Point,
    pub k_ciphertexts: Vec<Ciphertext>,
    pub g_ciphertexts: Vec<Ciphertext>,
    pub cap_ds: Vec<Ciphertext>,
    pub cap_fs: Vec<Ciphertext>,
}

impl Round3 {
    pub open spec fn wf(&self) -> bool {
        &&& self.context.wf()
        &&& self.delta.wf()
        &&& self.product_share.wf()
        &&& self.big_delta.wf()
        &&& self.big_delta.rep().len() <= 33
        &&& self.big_gamma.wf()
        &&& self.big_gamma.rep().len() <= 33
        &&& self.k_ciphertexts@.len() == self.context.num_parties
        &&& self.g_ciphertexts@.len() == self.context.num_parties
        &&& forall|i: int|
            0 <= i < self.context.num_parties
                ==> (#[trigger] self.k_ciphertexts@[i]).rep().len() < 0x100000000
        &&& forall|i: int|
            0 <= i < self.context.num_parties
                ==> (#[trigger] self.g_ciphertexts@[i]).rep().len() < 0x100000000
        &&& self.cap_ds@.len() == self.context.num_parties - 1
        &&& self.cap_fs@.len() == self.context.num_parties - 1
    }
}

/// The broadcast of round three.
pub struct Round3Bcast {
    pub delta: Scalar,
    pub big_delta: Point,
    pub psi_hat_pprime: LogStarProof,
}

impl Round3Bcast {
    pub open spec fn chunks(&self) -> Seq<Seq<u8>> {
        seq![
            self.delta.rep(),
            self.big_delta.rep(),
            self.psi_hat_pprime.pk.rep(),
            self.psi_hat_pprime.binding@,
        ]
    }

    pub open spec fn encodable(&self) -> bool {
        forall|i: int| 0 <= i < self.chunks().len() ==> (#[trigger] self.chunks()[i]).len()
            < 0x100000000
    }

    pub open spec fn valid(&self) -> bool {
        &&& self.delta.wf()
        &&& self.big_delta.wf()
        &&& self.big_delta.rep().len() == 33
        &&& self.psi_hat_pprime.wf()
    }

    pub fn to_bytes(&self) -> (r: Vec<u8>)
        requires
            self.encodable(),
            self.delta.wf(),
        ensures
            r@ == concat_framed(self.chunks()),
    {
        let mut fields: Vec<Vec<u8>> = Vec::new();
        fields.push(self.delta.to_be_bytes());
        fields.push(self.big_delta.to_bytes());
        fields.push(self.psi_hat_pprime.pk.n_bytes());
        let b = self.psi_hat_pprime.binding.clone();
        proof {
            assert(b@ =~= self.psi_hat_pprime.binding@);
        }
        fields.push(b);
        proof {
            assert(fields@.map_values(|c: Vec<u8>| c@) =~= self.chunks());
        }
        crate::codec::encode_chunks(&fields)
    }

    pub fn from_bytes(buf: &Vec<u8>) -> (r: Option<Round3Bcast>)
        ensures
            match r {
                Some(m) => {
                    &&& chunks_of(buf@) == Some(m.chunks())
                    &&& m.encodable()
                    &&& m.valid()
                    &&& round3_bcast_decodes(buf@)
                },
                None => !round3_bcast_decodes(buf@),
            },
    {
        let parts = match split_chunks(buf) {
            Some(p) => p,
            None => {
                return None;
            },
        };
        if parts.len() != 4 {
            return None;
        }
        let delta = match Scalar::try_from_be_bytes(&parts[0]) {
            Some(x) => x,
            None => {
                return None;
            },
        };
        let big_delta = match Point::try_from_compressed_bytes(&parts[1]) {
            Some(x) => x,
            None => {
                return None;
            },
        };
        let pk = match PaillierPublicKey::from_n_bytes(&parts[2]) {
            Some(x) => x,
            None => {
                return None;
            },
        };
        let binding = crate::codec::copy_range(&parts[3], 0, parts[3].len());
        proof {
            assert(binding@ =~= parts@[3]@);
        }
        let m = Round3Bcast { delta, big_delta, psi_hat_pprime: LogStarProof { pk, binding } };
        proof {
            assert(parts@.map_values(|c: Vec<u8>| c@) =~= m.chunks());
            crate::codec::lemma_chunks_bounded(buf@);
            assert(chunks_of(buf@).unwrap() == m.chunks());
            assert forall|i: int| 0 <= i < m.chunks().len() implies (#[trigger] m.chunks()[i]).len()
                < 0x100000000 by {
                assert(m.chunks()[i] == chunks_of(buf@).unwrap()[i]);
            }
        }
        Some(m)
    }
}

/// Serialize-then-parse is the identity on a round-three broadcast.
pub proof fn lemma_round3_bcast_round_trip(m: Round3Bcast)
    requires
        m.encodable(),
    ensures
        chunks_of(concat_framed(m.chunks())) == Some(m.chunks()),
{
    crate::codec::lemma_chunks_concat(m.chunks());
}

/// The payload round three hands to finalization, per sender.
pub struct Round3Payload {
    pub delta: Scalar,
    pub big_delta: Point,
}

impl Round3Payload {
    pub open spec fn wf(&self) -> bool {
        &&& self.delta.wf()
        &&& self.big_delta.wf()
        &&& self.big_delta.rep().len() == 33
    }
}

/// The `delta` shares in index order, the own share at `me`.
pub open spec fn delta_vals(own: nat, payloads: HoleVec<Round3Payload>, n: int, me: int) -> Seq<
    nat,
> {
    Seq::new(
        n as nat,
        |i: int|
            if i == me {
                own
            } else {
                payloads.view_at(i).unwrap().delta.val()
            },
    )
}

/// The `Delta` encodings in index order, the own point at `me`.
pub open spec fn big_delta_reps(
    own: Seq<u8>,
    payloads: HoleVec<Round3Payload>,
    n: int,
    me: int,
) -> Seq<Seq<u8>> {
    Seq::new(
        n as nat,
        |i: int|
            if i == me {
                own
            } else {
                payloads.view_at(i).unwrap().big_delta.rep()
            },
    )
}

pub open spec fn round3_payloads_wf(payloads: HoleVec<Round3Payload>, n: int, me: int) -> bool {
    forall|i: int|
        0 <= i < n && i != me ==> (#[trigger] payloads.view_at(i)).unwrap().wf()
}

/// The outcome of presigning: the triple, or blame evidence from the
/// identification sub-protocol.
pub enum PresigningOutcome {
    Success(PresigningData),
    Failure(PresigningEvidence),
}

/// The evidence assembled when the delta check fails: a proof that the
/// aggregate ciphertext was formed as the product `K·G`, and one
/// decryption proof per counterparty.
pub struct PresigningEvidence {
    pub mul_proof: MulProof,
    pub dec_proofs: Vec<DecProof>,
    pub combined: Ciphertext,
}

impl Round3 {
    /// The outgoing message, identical for every recipient: the `delta`
    /// share and `Delta` point, with a proof bound to this party's `K`
    /// ciphertext, `Gamma` as base and `Delta` as image.
    pub fn to_send(&self) -> (r: Vec<(PartyIdx, Round3Bcast)>)
        requires
            self.wf(),
        ensures
            r@.len() == self.context.num_parties - 1,
            forall|k: int|
                0 <= k < r@.len() ==> {
                    &&& (#[trigger] r@[k]).0.spec_idx() == other_idx(
                        self.context.my_idx as int,
                        k,
                    )
                    &&& r@[k].1.delta.val() == self.delta.val()
                    &&& r@[k].1.delta.rep() == self.delta.rep()
                    &&& r@[k].1.big_delta.rep() == self.big_delta.rep()
                    &&& r@[k].1.psi_hat_pprime.pk.n_val() == self.context.own_modulus()
                    &&& r@[k].1.psi_hat_pprime.pk.rep()
                        == self.context.key_share.public@[self.context.my_idx as int].paillier_pk.rep()
                    &&& r@[k].1.psi_hat_pprime.binding@ == crate::sigma::log_star_binding(
                        self.context.key_share.public@[self.context.my_idx as int].paillier_pk.rep(),
                        self.k_ciphertexts@[self.context.my_idx as int].rep(),
                        self.big_gamma.rep(),
                        self.big_delta.rep(),
                        self.context.shared_randomness@,
                        self.context.my_idx as nat,
                    )
                    &&& r@[k].1.encodable()
                    &&& r@[k].1.delta.wf()
                },
    {
        let n = self.context.num_parties;
        let me = self.context.my_idx;
        proof {
            assert(self.context.key_share.public@[me as int].wf());
        }
        let own_pk = self.context.key_share.public[me].paillier_pk.clone_key();
        let mut out: Vec<(PartyIdx, Round3Bcast)> = Vec::new();
        let mut k: usize = 0;
        while k < n - 1
            invariant
                self.wf(),
                n == self.context.num_parties,
                me == self.context.my_idx,
                own_pk.n_val() == self.context.own_modulus(),
                own_pk.rep() == self.context.key_share.public@[me as int].paillier_pk.rep(),
                own_pk.wf(),
                own_pk.rep().len() <= 8192,
                0 <= k <= n - 1,
                out@.len() == k,
                forall|u: int|
                    0 <= u < k ==> {
                        &&& (#[trigger] out@[u]).0.spec_idx() == other_idx(me as int, u)
                        &&& out@[u].1.delta.val() == self.delta.val()
                        &&& out@[u].1.delta.rep() == self.delta.rep()
                        &&& out@[u].1.big_delta.rep() == self.big_delta.rep()
                        &&& out@[u].1.psi_hat_pprime.pk.n_val() == self.context.own_modulus()
                        &&& out@[u].1.psi_hat_pprime.pk.rep()
                            == self.context.key_share.public@[me as int].paillier_pk.rep()
                        &&& out@[u].1.psi_hat_pprime.binding@ == crate::sigma::log_star_binding(
                            self.context.key_share.public@[me as int].paillier_pk.rep(),
                            self.k_ciphertexts@[me as int].rep(),
                            self.big_gamma.rep(),
                            self.big_delta.rep(),
                            self.context.shared_randomness@,
                            me as nat,
                        )
                        &&& out@[u].1.encodable()
                        &&& out@[u].1.delta.wf()
                    },
            decreases n - 1 - k,
        {
            let j = if k < me {
                k
            } else {
                k + 1
            };
            let msg = Round3Bcast {
                delta: self.delta.dup(),
                big_delta: self.big_delta.dup(),
                psi_hat_pprime: LogStarProof::random(
                    &own_pk,
                    &self.k_ciphertexts[me],
                    &self.big_gamma,
                    &self.big_delta,
                    &self.context.shared_randomness,
                    me as u32,
                ),
            };
            out.push((PartyIdx::from_usize(j), msg));
            k += 1;
        }
        out
    }

    /// What an incoming round-three message must carry: a proof under the
    /// sender's key whose transcript binds the sender's `K` ciphertext,
    /// the aggregate `Gamma` as base, and the message's `Delta` as image.
    pub open spec fn log_star3_ok(&self, from: int, msg: Round3Bcast) -> bool {
        &&& msg.psi_hat_pprime.pk.n_val()
            == self.context.key_share.public@[from].paillier_pk.n_val()
        &&& msg.psi_hat_pprime.binding@ == crate::sigma::log_star_binding(
            self.context.key_share.public@[from].paillier_pk.rep(),
            self.k_ciphertexts@[from].rep(),
            self.big_gamma.rep(),
            msg.big_delta.rep(),
            self.context.shared_randomness@,
            from as nat,
        )
    }

    /// Accepts exactly the messages whose discrete-log proof is bound to
    /// the sender's key and statement.
    pub fn verify_received(&self, from: PartyIdx, msg: Round3Bcast) -> (r: Result<
        Round3Payload,
        Error,
    >)
        requires
            self.wf(),
            0 <= from.spec_idx() < self.context.num_parties,
            msg.valid(),
        ensures
            match r {
                Ok(p) => {
                    &&& self.log_star3_ok(from.spec_idx(), msg)
                    &&& p.wf()
                    &&& p.delta.val() == msg.delta.val()
                    &&& p.big_delta.rep() == msg.big_delta.rep()
                },
                Err(e) => {
                    &&& !self.log_star3_ok(from.spec_idx(), msg)
                    &&& e == Error::TheirFault {
                        party: from,
                        error: TheirFault::VerificationFail(ProofKind::LogStar),
                    }
                },
            },
    {
        let fidx = from.as_usize();
        let from_pk = &self.context.key_share.public[fidx].paillier_pk;
        let ok = msg.psi_hat_pprime.verify(
            from_pk,
            &self.k_ciphertexts[fidx],
            &self.big_gamma,
            &msg.big_delta,
            &self.context.shared_randomness,
            fidx as u32,
        );
        if !ok {
            return Err(
                Error::TheirFault {
                    party: from,
                    error: TheirFault::VerificationFail(ProofKind::LogStar),
                },
            );
        }
        Ok(Round3Payload { delta: msg.delta, big_delta: msg.big_delta })
    }

    /// Sums the `delta` shares and the `Delta` points; on agreement the
    /// triple is emitted with `R = Gamma·delta^-1`, otherwise the
    /// identification sub-protocol assembles blame evidence.
    pub fn finalize(self, rng: &mut Drbg, payloads: HoleVec<Round3Payload>) -> (r:
        PresigningOutcome)
        requires
            old(rng).wf(),
            self.wf(),
            payloads.wf(),
            payloads.spec_len() == self.context.num_parties,
            payloads.hole_idx() == self.context.my_idx,
            round3_payloads_wf(payloads, self.context.num_parties as int, self.context.my_idx as int),
        ensures
            final (rng).wf(),
            ({
                let n = self.context.num_parties as int;
                let me = self.context.my_idx as int;
                let dsum = crate::group::nat_sum(delta_vals(self.delta.val(), payloads, n, me))
                    % q_order();
                let breps = big_delta_reps(self.big_delta.rep(), payloads, n, me);
                let agrees = point_of(dsum) == pt_fold(breps[0], breps.skip(1));
                match r {
                    PresigningOutcome::Success(pd) => {
                        &&& agrees
                        &&& pd.wf()
                        &&& pd.ephemeral_scalar_share.val()
                            == self.context.ephemeral_scalar_share.val()
                        &&& pd.product_share.val() == self.product_share.val()
                        &&& exists|iv: nat|
                            iv < q_order() && (dsum * iv) % q_order() == 1nat % q_order()
                                && pd.nonce.rep() == #[trigger] point_mul(self.big_gamma.rep(), iv)
                    },
                    PresigningOutcome::Failure(ev) => {
                        &&& !(agrees && exists|iv: nat|
                            iv < q_order() && #[trigger] ((dsum * iv) % q_order()) == 1nat
                                % q_order())
                        &&& ev.dec_proofs@.len() == n - 1
                        &&& ev.mul_proof.pk.n_val() == self.context.own_modulus()
                    },
                }
            }),
    {
        let n = self.context.num_parties;
        let me = self.context.my_idx;
        let ghost dseq = delta_vals(self.delta.val(), payloads, n as int, me as int);
        let ghost breps = big_delta_reps(self.big_delta.rep(), payloads, n as int, me as int);
        proof {
            crate::group::lemma_q_positive();
        }

        // Aggregate the delta shares in index order.
        let mut deltas: Vec<Scalar> = Vec::new();
        let mut i: usize = 0;
        while i < n
            invariant
                self.wf(),
                payloads.wf(),
                payloads.spec_len() == n,
                payloads.hole_idx() == me,
                round3_payloads_wf(payloads, n as int, me as int),
                n == self.context.num_parties,
                me == self.context.my_idx,
                dseq == delta_vals(self.delta.val(), payloads, n as int, me as int),
                0 <= i <= n,
                deltas@.len() == i,
                forall|t: int| 0 <= t < i ==> (#[trigger] deltas@[t]).wf(),
                forall|t: int| 0 <= t < i ==> (#[trigger] deltas@[t]).val() == dseq[t],
            decreases n - i,
        {
            if i == me {
                deltas.push(self.delta.dup());
            } else {
                let p = payloads.get(i);
                proof {
                    assert(Some(*p) == payloads.view_at(i as int));
                    assert(payloads.view_at(i as int).unwrap().wf());
                }
                deltas.push(p.delta.dup());
            }
            i += 1;
        }
        let delta_sum = crate::group::scalar_sum(&deltas);
        proof {
            assert(crate::group::scalar_vals(deltas@) =~= dseq);
        }

        // Aggregate the Delta points in index order.
        let mut bds: Vec<Point> = Vec::new();
        let mut t: usize = 0;
        while t < n
            invariant
                self.wf(),
                payloads.wf(),
                payloads.spec_len() == n,
                payloads.hole_idx() == me,
                round3_payloads_wf(payloads, n as int, me as int),
                n == self.context.num_parties,
                me == self.context.my_idx,
                breps == big_delta_reps(self.big_delta.rep(), payloads, n as int, me as int),
                0 <= t <= n,
                bds@.len() == t,
                forall|u: int| 0 <= u < t ==> (#[trigger] bds@[u]).wf(),
                forall|u: int| 0 <= u < t ==> (#[trigger] bds@[u]).rep() == breps[u],
            decreases n - t,
        {
            if t == me {
                bds.push(self.big_delta.dup());
            } else {
                let p = payloads.get(t);
                proof {
                    assert(Some(*p) == payloads.view_at(t as int));
                    assert(payloads.view_at(t as int).unwrap().wf());
                }
                bds.push(p.big_delta.dup());
            }
            t += 1;
        }
        let first = bds[0].dup();
        let mut rest: Vec<Point> = Vec::new();
        let mut u: usize = 1;
        while u < n
            invariant
                n == bds@.len(),
                forall|w: int| 0 <= w < n ==> (#[trigger] bds@[w]).wf(),
                forall|w: int| 0 <= w < n ==> (#[trigger] bds@[w]).rep() == breps[w],
                1 <= u <= n,
                rest@.len() == u - 1,
                forall|w: int| 0 <= w < u - 1 ==> (#[trigger] rest@[w]).wf(),
                forall|w: int| 0 <= w < u - 1 ==> (#[trigger] rest@[w]).rep() == breps[w + 1],
            decreases n - u,
        {
            rest.push(bds[u].dup());
            u += 1;
        }
        proof {
            assert(point_reps(rest@) =~= breps.skip(1));
        }
        let big_delta_total = crate::group::point_fold_sum(first, &rest);

        let check_pt = delta_sum.mul_by_generator();
        let agrees = check_pt.equals(&big_delta_total);

        if agrees {
            match delta_sum.invert() {
                Some(inv) => {
                    let nonce = self.big_gamma.mul(&inv);
                    return PresigningOutcome::Success(
                        PresigningData {
                            nonce,
                            ephemeral_scalar_share: self.context.ephemeral_scalar_share,
                            product_share: self.product_share,
                        },
                    );
                },
                None => {
                    let ev = self.build_evidence(rng);
                    return PresigningOutcome::Failure(ev);
                },
            }
        }
        let ev = self.build_evidence(rng);
        PresigningOutcome::Failure(ev)
    }

    /// The identification sub-protocol: re-encrypt `k·gamma`, fold in the
    /// received `D` and own `F` ciphertexts, and produce the product and
    /// decryption proofs that exhibit the inconsistency.
    fn build_evidence(&self, rng: &mut Drbg) -> (r: PresigningEvidence)
        requires
            old(rng).wf(),
            self.wf(),
        ensures
            final (rng).wf(),
            r.dec_proofs@.len() == self.context.num_parties - 1,
            r.mul_proof.pk.n_val() == self.context.own_modulus(),
    {
        let n = self.context.num_parties;
        let me = self.context.my_idx;
        proof {
            assert(self.context.key_share.public@[me as int].wf());
        }
        let own_pk = self.context.key_share.public[me].paillier_pk.clone_key();
        proof {
            lemma_q_below_modulus(own_pk.n_val());
        }
        let rho_h = Randomizer::random(rng, &own_pk);
        let kb = self.context.ephemeral_scalar_share.to_be_bytes();
        let gb = self.context.gamma.to_be_bytes();
        let prod = crate::bigint::nb_mul(&kb, &gb);
        proof {
            crate::bytes::lemma_be_val_bound(crate::group::q_seq());
            assert(self.context.ephemeral_scalar_share.val() * self.context.gamma.val()
                < crate::bytes::pow256(32) as nat * crate::bytes::pow256(32) as nat) by (nonlinear_arith)
                requires
                    self.context.ephemeral_scalar_share.val() < crate::bytes::pow256(32),
                    self.context.gamma.val() < crate::bytes::pow256(32),
                    crate::bytes::pow256(32) > 0,
            {}
            vstd::arithmetic::power::lemma_pow_adds(256, 32, 32);
            vstd::arithmetic::power::lemma_pow_strictly_increases(256, 64, 66);
            crate::bytes::lemma_pow256_positive(32);
        }
        let cap_h = Ciphertext::new_with_randomizer(&own_pk, &prod, &rho_h);
        let mul_proof = MulProof::random(
            &own_pk,
            &self.k_ciphertexts[me],
            &self.g_ciphertexts[me],
            &cap_h,
            &self.context.shared_randomness,
            me as u32,
        );
        let mut combined = cap_h;
        let mut k: usize = 0;
        while k < n - 1
            invariant
                self.wf(),
                rng.wf(),
                n == self.context.num_parties,
                me == self.context.my_idx,
                own_pk.wf(),
                own_pk.rep().len() <= 8192,
                own_pk.n_val() == self.context.own_modulus(),
                combined.rep().len() < 0x100000000,
                0 <= k <= n - 1,
            decreases n - 1 - k,
        {
            combined = combined.homomorphic_add(&own_pk, &self.cap_ds[k]);
            combined = combined.homomorphic_add(&own_pk, &self.cap_fs[k]);
            k += 1;
        }
        let mut dec_proofs: Vec<DecProof> = Vec::new();
        let mut d: usize = 0;
        while d < n - 1
            invariant
                self.wf(),
                n == self.context.num_parties,
                own_pk.wf(),
                own_pk.n_val() == self.context.own_modulus(),
                combined.rep().len() < 0x100000000,
                0 <= d <= n - 1,
                dec_proofs@.len() == d,
            decreases n - 1 - d,
        {
            dec_proofs.push(
                DecProof::random(
                    &own_pk,
                    &combined,
                    &self.delta,
                    &self.context.shared_randomness,
                    me as u32,
                ),
            );
            d += 1;
        }
        PresigningEvidence { mul_proof, dec_proofs, combined }
    }
}

} // verus!
