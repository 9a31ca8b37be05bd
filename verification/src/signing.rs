//! The signing round: one broadcast that combines the presigning triples
//! with the prehashed message into an ECDSA signature.
//!
//! With the triple `(R, k_i, chi_i)` and the message scalar `m`, each
//! party broadcasts `sigma_i = k_i·m + r·chi_i` where `r` is the reduced
//! x-coordinate of `R`; the sum of the shares is the `s` component,
//! canonicalized to the low half of the field, with the recovery bit
//! tracking the parity of `R` and the flip.

use crate::codec::{chunks_of, concat_framed, split_chunks};
use crate::collections::{HoleVec, PartyIdx};
use crate::common::{Error, MyFault, PresigningData};
use crate::group::{nat_sum, point_x, q_order, Point, RecoverableSignature, Scalar, Signature};
use vstd::prelude::*;

verus! {

/// What the signing round starts from.
pub struct SigningContext {
    pub message: Scalar,
    pub presigning: PresigningData,
    pub verifying_key: Point,
}

impl SigningContext {
    pub open spec fn wf(&self) -> bool {
        &&& self.message.wf()
        &&& self.presigning.wf()
        &&& self.verifying_key.wf()
    }
}

/// The broadcast of the signing round: this party's signature share.
pub struct SigningBcast {
    pub sigma: Scalar,
}

impl SigningBcast {
    pub open spec fn chunks(&self) -> Seq<Seq<u8>> {
        seq![self.sigma.rep()]
    }

    pub fn to_bytes(&self) -> (r: Vec<u8>)
        requires
            self.sigma.wf(),
        ensures
            r@ == concat_framed(self.chunks()),
    {
        let mut fields: Vec<Vec<u8>> = Vec::new();
        fields.push(self.sigma.to_be_bytes());
        proof {
            assert(fields@.map_values(|c: Vec<u8>| c@) =~= self.chunks());
        }
        crate::codec::encode_chunks(&fields)
    }

    pub fn from_bytes(buf: &Vec<u8>) -> (r: Option<SigningBcast>)
        ensures
            match r {
                Some(m) => {
                    &&& chunks_of(buf@) == Some(m.chunks())
                    &&& m.sigma.wf()
                    &&& signing_bcast_decodes(buf@)
                },
                None => !signing_bcast_decodes(buf@),
            },
    {
        let parts = match split_chunks(buf) {
            Some(p) => p,
            None => {
                return None;
            },
        };
        if parts.len() != 1 {
            return None;
        }
        let sigma = match Scalar::try_from_be_bytes(&parts[0]) {
            Some(x) => x,
            None => {
                return None;
            },
        };
        let m = SigningBcast { sigma };
        proof {
            assert(parts@.map_values(|c: Vec<u8>| c@) =~= m.chunks());
        }
        Some(m)
    }
}

/// Serialize-then-parse is the identity on a signing broadcast.
pub proof fn lemma_signing_bcast_round_trip(m: SigningBcast)
    requires
        m.sigma.rep().len() < 0x100000000,
    ensures
        chunks_of(concat_framed(m.chunks())) == Some(m.chunks()),
{
    crate::codec::lemma_chunks_concat(m.chunks());
}

/// A body that decodes as a signing broadcast.
pub open spec fn signing_bcast_decodes(body: Seq<u8>) -> bool {
    &&& chunks_of(body) is Some
    &&& chunks_of(body).unwrap().len() == 1
    &&& chunks_of(body).unwrap()[0].len() == 32
    &&& crate::bytes::be_val(chunks_of(body).unwrap()[0]) < q_order()
}

/// The low-half canonical form of a field element.
pub open spec fn low_normal(v: nat) -> nat {
    if v > (q_order() - 1) / 2 {
        (q_order() - v) as nat
    } else {
        v
    }
}

/// The signature shares in index order, the own share at `me`.
pub open spec fn sigma_vals(own: nat, payloads: HoleVec<Scalar>, n: int, me: int) -> Seq<nat> {
    Seq::new(
        n as nat,
        |i: int|
            if i == me {
                own
            } else {
                payloads.view_at(i).unwrap().val()
            },
    )
}

pub open spec fn sigma_payloads_wf(payloads: HoleVec<Scalar>, n: int, me: int) -> bool {
    forall|i: int| 0 <= i < n && i != me ==> (#[trigger] payloads.view_at(i)).unwrap().wf()
}

/// The signing round for one party.
pub struct SigningRound {
    pub context: SigningContext,
    pub r: Scalar,
    pub sigma: Scalar,
    pub num_parties: usize,
    pub my_idx: usize,
}

impl SigningRound {
    pub open spec fn wf(&self) -> bool {
        &&& self.context.wf()
        &&& self.r.wf()
        &&& self.sigma.wf()
        &&& self.num_parties >= 2
        &&& self.my_idx < self.num_parties
        &&& self.context.presigning.nonce.rep().len() == 33
    }

    /// Derives `r` from the nonce point and this party's share
    /// `sigma_i = k_i·m + r·chi_i`. Fails exactly when the nonce point is
    /// not an ordinary (non-identity) point.
    pub fn new(context: SigningContext, num_parties: usize, my_idx: usize) -> (res: Result<
        SigningRound,
        Error,
    >)
        requires
            context.wf(),
            num_parties >= 2,
            my_idx < num_parties,
        ensures
            match res {
                Ok(rd) => {
                    &&& rd.wf()
                    &&& context.presigning.nonce.rep().len() == 33
                    &&& rd.context == context
                    &&& rd.num_parties == num_parties
                    &&& rd.my_idx == my_idx
                    &&& rd.r.val() == crate::bytes::be_val(
                        point_x(context.presigning.nonce.rep()),
                    ) % q_order()
                    &&& rd.sigma.val() as int == ((
                    context.presigning.ephemeral_scalar_share.val() * context.message.val()
                        + rd.r.val() * context.presigning.product_share.val()) as int) % (
                    q_order() as int)
                },
                Err(e) => {
                    &&& context.presigning.nonce.rep().len() != 33
                    &&& e == Error::MyFault(MyFault::InvalidState)
                },
            },
    {
        if context.presigning.nonce.encoded_len() != 33 {
            return Err(Error::MyFault(MyFault::InvalidState));
        }
        let r = context.presigning.nonce.x_coordinate();
        let km = context.presigning.ephemeral_scalar_share.mul(&context.message);
        let rchi = r.mul(&context.presigning.product_share);
        let sigma = km.add(&rchi);
        proof {
            crate::group::lemma_q_positive();
            let qi = q_order() as int;
            let a = (context.presigning.ephemeral_scalar_share.val()
                * context.message.val()) as int;
            let b = (r.val() * context.presigning.product_share.val()) as int;
            assert(((a % qi) + (b % qi)) % qi == (a + b) % qi) by {
                vstd::arithmetic::div_mod::lemma_add_mod_noop(a, b, qi);
            }
        }
        Ok(SigningRound { context, r, sigma, num_parties, my_idx })
    }

    /// The broadcast payload: this party's share.
    pub fn to_send(&self) -> (r: SigningBcast)
        requires
            self.wf(),
        ensures
            r.sigma.val() == self.sigma.val(),
            r.sigma.rep() == self.sigma.rep(),
            r.sigma.wf(),
    {
        SigningBcast { sigma: self.sigma.dup() }
    }

    /// A plain broadcast: the share is accepted as is.
    pub fn verify_received(&self, _from: PartyIdx, msg: SigningBcast) -> (r: Result<Scalar, Error>)
        ensures
            r is Ok,
            r.unwrap().val() == msg.sigma.val(),
            r.unwrap() == msg.sigma,
    {
        Ok(msg.sigma)
    }

    /// Sums the shares into `s`, canonicalizes it to the low half, and
    /// derives the recovery bit from the parity of the nonce point and
    /// the flip. Fails exactly when `r` or the canonical `s` is zero.
    pub fn finalize(self, payloads: HoleVec<Scalar>) -> (res: Result<RecoverableSignature, Error>)
        requires
            self.wf(),
            payloads.wf(),
            payloads.spec_len() == self.num_parties,
            payloads.hole_idx() == self.my_idx,
            sigma_payloads_wf(payloads, self.num_parties as int, self.my_idx as int),
        ensures
            ({
                let total = nat_sum(
                    sigma_vals(
                        self.sigma.val(),
                        payloads,
                        self.num_parties as int,
                        self.my_idx as int,
                    ),
                ) % q_order();
                let s_norm = low_normal(total);
                let parity: int = if self.context.presigning.nonce.rep()[0] == 3 {
                    1int
                } else {
                    0int
                };
                let flip: int = if total > (q_order() - 1) / 2 {
                    1int
                } else {
                    0int
                };
                match res {
                    Ok(rs) => {
                        &&& rs.wf()
                        &&& rs.sig_spec().r_val() == self.r.val()
                        &&& rs.sig_spec().s_val() == s_norm
                        &&& rs.recovery_spec() == (if parity == flip {
                            0u8
                        } else {
                            1u8
                        })
                        &&& self.r.val() != 0
                        &&& s_norm != 0
                    },
                    Err(e) => {
                        &&& self.r.val() == 0 || s_norm == 0
                        &&& e == Error::ErrorRound
                    },
                }
            }),
    {
        let n = self.num_parties;
        let me = self.my_idx;
        let ghost sseq = sigma_vals(self.sigma.val(), payloads, n as int, me as int);
        let mut sigmas: Vec<Scalar> = Vec::new();
        let mut i: usize = 0;
        while i < n
            invariant
                self.wf(),
                payloads.wf(),
                payloads.spec_len() == n,
                payloads.hole_idx() == me,
                sigma_payloads_wf(payloads, n as int, me as int),
                n == self.num_parties,
                me == self.my_idx,
                sseq == sigma_vals(self.sigma.val(), payloads, n as int, me as int),
                0 <= i <= n,
                sigmas@.len() == i,
                forall|t: int| 0 <= t < i ==> (#[trigger] sigmas@[t]).wf(),
                forall|t: int| 0 <= t < i ==> (#[trigger] sigmas@[t]).val() == sseq[t],
            decreases n - i,
        {
            if i == me {
                sigmas.push(self.sigma.dup());
            } else {
                let p = payloads.get(i);
                proof {
                    assert(Some(*p) == payloads.view_at(i as int));
                    assert(payloads.view_at(i as int).unwrap().wf());
                }
                sigmas.push(p.dup());
            }
            i += 1;
        }
        let total = crate::group::scalar_sum(&sigmas);
        proof {
            assert(crate::group::scalar_vals(sigmas@) =~= sseq);
        }
        let s_norm = total.normalize();
        let flipped = !s_norm.equals(&total);
        proof {
            crate::group::lemma_q_positive();
            if total.is_high() {
                // A high value and its negation differ: `2v == q` is
                // impossible for the odd group order, so the flip is
                // detected exactly.
                if s_norm.val() == total.val() {
                    assert(q_order() == 2 * total.val());
                    assert(q_order() % 2 == 1) by {
                        q_odd_witness();
                    }
                }
            }
        }
        let nonce_bytes = self.context.presigning.nonce.to_bytes();
        let parity: u8 = if nonce_bytes[0] == 3 {
            1
        } else {
            0
        };
        let recovery: u8 = if flipped {
            1 - parity
        } else {
            parity
        };
        match Signature::from_scalars(&self.r, &s_norm) {
            Some(sig) => Ok(RecoverableSignature::new(sig, recovery)),
            None => Err(Error::ErrorRound),
        }
    }
}

/// The group order is odd.
proof fn q_odd_witness()
    ensures
        q_order() % 2 == 1,
{
    crate::bytes::lemma_be_val_split(crate::group::q_seq(), 31);
    assert(crate::group::q_seq().skip(31) =~= seq![0x41u8]);
    assert(crate::bytes::be_val(seq![0x41u8]) == 0x41) by {
        assert(seq![0x41u8].drop_last() =~= Seq::<u8>::empty());
        assert(crate::bytes::be_val(Seq::<u8>::empty()) == 0);
    }
    assert(crate::bytes::pow256(1) == 256) by {
        vstd::arithmetic::power::lemma_pow1(256);
    }
    let hi = crate::bytes::be_val(crate::group::q_seq().take(31)) as int;
    assert(q_order() == hi * 256 + 0x41);
    assert((hi * 256 + 0x41) % 2 == 1) by {
        vstd::arithmetic::div_mod::lemma_mod_multiples_vanish(hi * 128, 0x41, 2);
        assert(hi * 256 == (hi * 128) * 2) by {
            vstd::arithmetic::mul::lemma_mul_is_associative(hi, 128, 2);
        }
        vstd::arithmetic::div_mod::lemma_small_mod(1, 2);
    }
}

} // verus!
