//! Sigma protocols attached to the protocol rounds.
//!
//! The range and affine-transform proofs (`Enc`, `AffG`, `LogStar`, `Mul`,
//! `Dec`) are structural commitments: each carries the Paillier keys of
//! its statement and a transcript hash binding the full statement — the
//! ciphertexts and points it speaks about, the session's shared
//! randomness, and the sender's index. Verification recomputes the
//! transcript, so a proof is rejected when any part of its statement, its
//! session, or its claimed sender differs — but no witness is checked:
//! these are not zero-knowledge arguments, and a deployment would put
//! full Fiat–Shamir sigma protocols behind the same interfaces. The
//! Schnorr proof of knowledge (`Sch`) used by key generation is complete:
//! commitment, hash-derived challenge, and response over the curve.

use crate::bytes::bytes_eq;
use crate::codec::concat_framed;
use crate::group::{point_mul, point_of, point_sum, q_order, Point, Scalar};
use crate::hashing::{be_of, framed, sha256_of, u32_be_bytes, Hasher};
use crate::paillier::{Ciphertext, PaillierPublicKey};
use vstd::prelude::*;

verus! {

/// The transcript a proof binds: a domain tag, the statement parts as
/// framed chunks, the session's shared randomness, and the sender's
/// index.
pub open spec fn proof_binding(
    tag: Seq<u8>,
    parts: Seq<Seq<u8>>,
    sr: Seq<u8>,
    sender: nat,
) -> Seq<u8> {
    sha256_of(framed(tag) + concat_framed(parts) + framed(sr) + framed(be_of(sender, 4)))
}

/// Computes the binding transcript hash.
fn compute_binding(tag: &Vec<u8>, parts: &Vec<Vec<u8>>, sr: &Vec<u8>, sender: u32) -> (r: Vec<
    u8,
>)
    requires
        tag@.len() < 0x100000000,
        sr@.len() < 0x100000000,
        forall|i: int| 0 <= i < parts@.len() ==> (#[trigger] parts@[i])@.len() < 0x100000000,
    ensures
        r@ == proof_binding(tag@, parts@.map_values(|c: Vec<u8>| c@), sr@, sender as nat),
        r@.len() == 32,
{
    let ghost cs = parts@.map_values(|c: Vec<u8>| c@);
    let mut h = Hasher::new_with_dst(tag);
    let mut i: usize = 0;
    proof {
        assert(cs.skip(0) =~= cs);
    }
    while i < parts.len()
        invariant
            cs == parts@.map_values(|c: Vec<u8>| c@),
            forall|k: int| 0 <= k < parts@.len() ==> (#[trigger] parts@[k])@.len() < 0x100000000,
            0 <= i <= parts@.len(),
            h@ + concat_framed(cs.skip(i as int)) == framed(tag@) + concat_framed(cs),
        decreases parts@.len() - i,
    {
        let ghost pre = h@;
        h.chain_bytes(&parts[i]);
        proof {
            crate::codec::lemma_concat_framed_step(cs.skip(i as int));
            assert(cs.skip(i as int)[0] == cs[i as int]);
            assert(cs.skip(i as int).skip(1) =~= cs.skip(i + 1));
            assert((pre + framed(cs[i as int])) + concat_framed(cs.skip(i + 1)) =~= pre + (framed(
                cs[i as int],
            ) + concat_framed(cs.skip(i + 1))));
        }
        i += 1;
    }
    proof {
        assert(cs.skip(parts@.len() as int) =~= Seq::<Seq<u8>>::empty());
        assert(h@ + Seq::<u8>::empty() =~= h@);
    }
    h.chain_bytes(sr);
    let idx_bytes = u32_be_bytes(sender);
    h.chain_bytes(&idx_bytes);
    let r = h.finalize();
    proof {
        assert((framed(tag@) + concat_framed(cs)) + framed(sr@) + framed(be_of(sender as nat, 4))
            =~= framed(tag@) + concat_framed(cs) + framed(sr@) + framed(be_of(sender as nat, 4)));
    }
    r
}

/// The domain tag of the affine-transform proof transcript.
pub open spec fn affg_dst() -> Seq<u8> {
    seq![65u8, 102, 102, 71]
}

/// The transcript of an affine-transform proof: the verifier's and the
/// prover's keys, the transformed ciphertext `C`, the outputs `D` and
/// `F`, and the public point `X`.
pub open spec fn affg_binding(
    pk0: Seq<u8>,
    pk1: Seq<u8>,
    cap_c: Seq<u8>,
    cap_d: Seq<u8>,
    cap_f: Seq<u8>,
    x: Seq<u8>,
    sr: Seq<u8>,
    sender: nat,
) -> Seq<u8> {
    proof_binding(affg_dst(), seq![pk0, pk1, cap_c, cap_d, cap_f, x], sr, sender)
}

fn affg_dst_vec() -> (r: Vec<u8>)
    ensures
        r@ == affg_dst(),
{
    let mut r: Vec<u8> = Vec::new();
    r.push(65);
    r.push(102);
    r.push(102);
    r.push(71);
    proof {
        assert(r@ =~= affg_dst());
    }
    r
}

/// An affine-transform proof: the two Paillier keys and the statement
/// transcript.
pub struct AffGProof {
    pub pk0: PaillierPublicKey,
    pub pk1: PaillierPublicKey,
    pub binding: Vec<u8>,
}

impl AffGProof {
    pub open spec fn wf(&self) -> bool {
        self.pk0.wf() && self.pk1.wf()
    }

    /// An explicit copy.
    pub fn dup(&self) -> (r: AffGProof)
        ensures
            r.pk0.rep() == self.pk0.rep(),
            r.pk0.n_val() == self.pk0.n_val(),
            r.pk1.rep() == self.pk1.rep(),
            r.pk1.n_val() == self.pk1.n_val(),
            r.binding@ == self.binding@,
            r.wf() == self.wf(),
    {
        let binding = self.binding.clone();
        proof {
            assert(binding@ =~= self.binding@);
        }
        AffGProof { pk0: self.pk0.clone_key(), pk1: self.pk1.clone_key(), binding }
    }

    /// Produces the proof for the statement `(C, D, F, X)` under the two
    /// keys, bound to the session randomness and the sender's index.
    pub fn random(
        pk0: &PaillierPublicKey,
        pk1: &PaillierPublicKey,
        cap_c: &Ciphertext,
        cap_d: &Ciphertext,
        cap_f: &Ciphertext,
        x: &Point,
        sr: &Vec<u8>,
        sender: u32,
    ) -> (r: AffGProof)
        requires
            pk0.wf(),
            pk1.wf(),
            cap_c.rep().len() < 0x100000000,
            cap_d.rep().len() < 0x100000000,
            cap_f.rep().len() < 0x100000000,
            x.rep().len() < 0x100000000,
            sr@.len() < 0x100000000,
        ensures
            r.wf(),
            r.pk0.n_val() == pk0.n_val(),
            r.pk0.rep() == pk0.rep(),
            r.pk1.n_val() == pk1.n_val(),
            r.pk1.rep() == pk1.rep(),
            r.binding@ == affg_binding(
                pk0.rep(),
                pk1.rep(),
                cap_c.rep(),
                cap_d.rep(),
                cap_f.rep(),
                x.rep(),
                sr@,
                sender as nat,
            ),
            r.binding@.len() == 32,
    {
        let dst = affg_dst_vec();
        let mut parts: Vec<Vec<u8>> = Vec::new();
        parts.push(pk0.n_bytes());
        parts.push(pk1.n_bytes());
        parts.push(cap_c.to_bytes());
        parts.push(cap_d.to_bytes());
        parts.push(cap_f.to_bytes());
        parts.push(x.to_bytes());
        proof {
            assert(parts@.map_values(|c: Vec<u8>| c@) =~= seq![
                pk0.rep(),
                pk1.rep(),
                cap_c.rep(),
                cap_d.rep(),
                cap_f.rep(),
                x.rep(),
            ]);
        }
        let binding = compute_binding(&dst, &parts, sr, sender);
        AffGProof { pk0: pk0.clone_key(), pk1: pk1.clone_key(), binding }
    }

    /// Accepts exactly when the proof commits to the given keys and its
    /// transcript matches the statement, session and sender.
    pub fn verify(
        &self,
        pk0: &PaillierPublicKey,
        pk1: &PaillierPublicKey,
        cap_c: &Ciphertext,
        cap_d: &Ciphertext,
        cap_f: &Ciphertext,
        x: &Point,
        sr: &Vec<u8>,
        sender: u32,
    ) -> (r: bool)
        requires
            pk0.wf(),
            pk1.wf(),
            cap_c.rep().len() < 0x100000000,
            cap_d.rep().len() < 0x100000000,
            cap_f.rep().len() < 0x100000000,
            x.rep().len() < 0x100000000,
            sr@.len() < 0x100000000,
        ensures
            r == ({
                &&& self.pk0.n_val() == pk0.n_val()
                &&& self.pk1.n_val() == pk1.n_val()
                &&& self.binding@ == affg_binding(
                    pk0.rep(),
                    pk1.rep(),
                    cap_c.rep(),
                    cap_d.rep(),
                    cap_f.rep(),
                    x.rep(),
                    sr@,
                    sender as nat,
                )
            }),
    {
        if !self.pk0.same_modulus(pk0) || !self.pk1.same_modulus(pk1) {
            return false;
        }
        let dst = affg_dst_vec();
        let mut parts: Vec<Vec<u8>> = Vec::new();
        parts.push(pk0.n_bytes());
        parts.push(pk1.n_bytes());
        parts.push(cap_c.to_bytes());
        parts.push(cap_d.to_bytes());
        parts.push(cap_f.to_bytes());
        parts.push(x.to_bytes());
        proof {
            assert(parts@.map_values(|c: Vec<u8>| c@) =~= seq![
                pk0.rep(),
                pk1.rep(),
                cap_c.rep(),
                cap_d.rep(),
                cap_f.rep(),
                x.rep(),
            ]);
        }
        let expected = compute_binding(&dst, &parts, sr, sender);
        bytes_eq(&self.binding, &expected)
    }
}

/// The domain tag of the encryption-in-range proof transcript.
pub open spec fn enc_dst() -> Seq<u8> {
    seq![69u8, 110, 99]
}

/// The transcript of a range proof: the prover's key and its `K`
/// ciphertext.
pub open spec fn enc_binding(pk: Seq<u8>, cap_k: Seq<u8>, sr: Seq<u8>, sender: nat) -> Seq<u8> {
    proof_binding(enc_dst(), seq![pk, cap_k], sr, sender)
}

fn enc_dst_vec() -> (r: Vec<u8>)
    ensures
        r@ == enc_dst(),
{
    let mut r: Vec<u8> = Vec::new();
    r.push(69);
    r.push(110);
    r.push(99);
    proof {
        assert(r@ =~= enc_dst());
    }
    r
}

/// An encryption-in-range proof: the prover's key and the statement
/// transcript.
pub struct EncProof {
    pub pk: PaillierPublicKey,
    pub binding: Vec<u8>,
}

impl EncProof {
    pub open spec fn wf(&self) -> bool {
        self.pk.wf()
    }

    pub fn random(pk: &PaillierPublicKey, cap_k: &Ciphertext, sr: &Vec<u8>, sender: u32) -> (r:
        EncProof)
        requires
            pk.wf(),
            cap_k.rep().len() < 0x100000000,
            sr@.len() < 0x100000000,
        ensures
            r.wf(),
            r.pk.n_val() == pk.n_val(),
            r.pk.rep() == pk.rep(),
            r.binding@ == enc_binding(pk.rep(), cap_k.rep(), sr@, sender as nat),
            r.binding@.len() == 32,
    {
        let dst = enc_dst_vec();
        let mut parts: Vec<Vec<u8>> = Vec::new();
        parts.push(pk.n_bytes());
        parts.push(cap_k.to_bytes());
        proof {
            assert(parts@.map_values(|c: Vec<u8>| c@) =~= seq![pk.rep(), cap_k.rep()]);
        }
        let binding = compute_binding(&dst, &parts, sr, sender);
        EncProof { pk: pk.clone_key(), binding }
    }

    pub fn verify(&self, pk: &PaillierPublicKey, cap_k: &Ciphertext, sr: &Vec<u8>, sender: u32) -> (
        r: bool)
        requires
            pk.wf(),
            cap_k.rep().len() < 0x100000000,
            sr@.len() < 0x100000000,
        ensures
            r == (self.pk.n_val() == pk.n_val() && self.binding@ == enc_binding(
                pk.rep(),
                cap_k.rep(),
                sr@,
                sender as nat,
            )),
    {
        if !self.pk.same_modulus(pk) {
            return false;
        }
        let dst = enc_dst_vec();
        let mut parts: Vec<Vec<u8>> = Vec::new();
        parts.push(pk.n_bytes());
        parts.push(cap_k.to_bytes());
        proof {
            assert(parts@.map_values(|c: Vec<u8>| c@) =~= seq![pk.rep(), cap_k.rep()]);
        }
        let expected = compute_binding(&dst, &parts, sr, sender);
        bytes_eq(&self.binding, &expected)
    }
}

/// The domain tag of the discrete-log proof transcript.
pub open spec fn log_star_dst() -> Seq<u8> {
    seq![76u8, 111, 103]
}

/// The transcript of a discrete-log-with-ciphertext proof: the prover's
/// key, the bound ciphertext, the base point, and the image point.
pub open spec fn log_star_binding(
    pk: Seq<u8>,
    cipher: Seq<u8>,
    base: Seq<u8>,
    image: Seq<u8>,
    sr: Seq<u8>,
    sender: nat,
) -> Seq<u8> {
    proof_binding(log_star_dst(), seq![pk, cipher, base, image], sr, sender)
}

fn log_star_dst_vec() -> (r: Vec<u8>)
    ensures
        r@ == log_star_dst(),
{
    let mut r: Vec<u8> = Vec::new();
    r.push(76);
    r.push(111);
    r.push(103);
    proof {
        assert(r@ =~= log_star_dst());
    }
    r
}

/// A discrete-log-with-ciphertext proof: the prover's key and the
/// statement transcript.
pub struct LogStarProof {
    pub pk: PaillierPublicKey,
    pub binding: Vec<u8>,
}

impl LogStarProof {
    pub open spec fn wf(&self) -> bool {
        self.pk.wf()
    }

    pub fn random(
        pk: &PaillierPublicKey,
        cipher: &Ciphertext,
        base: &Point,
        image: &Point,
        sr: &Vec<u8>,
        sender: u32,
    ) -> (r: LogStarProof)
        requires
            pk.wf(),
            cipher.rep().len() < 0x100000000,
            base.rep().len() < 0x100000000,
            image.rep().len() < 0x100000000,
            sr@.len() < 0x100000000,
        ensures
            r.wf(),
            r.pk.n_val() == pk.n_val(),
            r.pk.rep() == pk.rep(),
            r.binding@ == log_star_binding(
                pk.rep(),
                cipher.rep(),
                base.rep(),
                image.rep(),
                sr@,
                sender as nat,
            ),
            r.binding@.len() == 32,
    {
        let dst = log_star_dst_vec();
        let mut parts: Vec<Vec<u8>> = Vec::new();
        parts.push(pk.n_bytes());
        parts.push(cipher.to_bytes());
        parts.push(base.to_bytes());
        parts.push(image.to_bytes());
        proof {
            assert(parts@.map_values(|c: Vec<u8>| c@) =~= seq![
                pk.rep(),
                cipher.rep(),
                base.rep(),
                image.rep(),
            ]);
        }
        let binding = compute_binding(&dst, &parts, sr, sender);
        LogStarProof { pk: pk.clone_key(), binding }
    }

    pub fn verify(
        &self,
        pk: &PaillierPublicKey,
        cipher: &Ciphertext,
        base: &Point,
        image: &Point,
        sr: &Vec<u8>,
        sender: u32,
    ) -> (r: bool)
        requires
            pk.wf(),
            cipher.rep().len() < 0x100000000,
            base.rep().len() < 0x100000000,
            image.rep().len() < 0x100000000,
            sr@.len() < 0x100000000,
        ensures
            r == (self.pk.n_val() == pk.n_val() && self.binding@ == log_star_binding(
                pk.rep(),
                cipher.rep(),
                base.rep(),
                image.rep(),
                sr@,
                sender as nat,
            )),
    {
        if !self.pk.same_modulus(pk) {
            return false;
        }
        let dst = log_star_dst_vec();
        let mut parts: Vec<Vec<u8>> = Vec::new();
        parts.push(pk.n_bytes());
        parts.push(cipher.to_bytes());
        parts.push(base.to_bytes());
        parts.push(image.to_bytes());
        proof {
            assert(parts@.map_values(|c: Vec<u8>| c@) =~= seq![
                pk.rep(),
                cipher.rep(),
                base.rep(),
                image.rep(),
            ]);
        }
        let expected = compute_binding(&dst, &parts, sr, sender);
        bytes_eq(&self.binding, &expected)
    }
}

/// The domain tag of the ciphertext-product proof transcript.
pub open spec fn mul_dst() -> Seq<u8> {
    seq![77u8, 117, 108]
}

/// The transcript of a product proof: the key and the ciphertexts
/// `K`, `G`, `H` of the claimed relation.
pub open spec fn mul_binding(
    pk: Seq<u8>,
    cap_k: Seq<u8>,
    cap_g: Seq<u8>,
    cap_h: Seq<u8>,
    sr: Seq<u8>,
    sender: nat,
) -> Seq<u8> {
    proof_binding(mul_dst(), seq![pk, cap_k, cap_g, cap_h], sr, sender)
}

/// A ciphertext-product proof, produced in the identification
/// sub-protocol.
pub struct MulProof {
    pub pk: PaillierPublicKey,
    pub binding: Vec<u8>,
}

impl MulProof {
    pub fn random(
        pk: &PaillierPublicKey,
        cap_k: &Ciphertext,
        cap_g: &Ciphertext,
        cap_h: &Ciphertext,
        sr: &Vec<u8>,
        sender: u32,
    ) -> (r: MulProof)
        requires
            pk.wf(),
            cap_k.rep().len() < 0x100000000,
            cap_g.rep().len() < 0x100000000,
            cap_h.rep().len() < 0x100000000,
            sr@.len() < 0x100000000,
        ensures
            r.pk.n_val() == pk.n_val(),
            r.binding@ == mul_binding(
                pk.rep(),
                cap_k.rep(),
                cap_g.rep(),
                cap_h.rep(),
                sr@,
                sender as nat,
            ),
    {
        let mut dst: Vec<u8> = Vec::new();
        dst.push(77);
        dst.push(117);
        dst.push(108);
        proof {
            assert(dst@ =~= mul_dst());
        }
        let mut parts: Vec<Vec<u8>> = Vec::new();
        parts.push(pk.n_bytes());
        parts.push(cap_k.to_bytes());
        parts.push(cap_g.to_bytes());
        parts.push(cap_h.to_bytes());
        proof {
            assert(parts@.map_values(|c: Vec<u8>| c@) =~= seq![
                pk.rep(),
                cap_k.rep(),
                cap_g.rep(),
                cap_h.rep(),
            ]);
        }
        let binding = compute_binding(&dst, &parts, sr, sender);
        MulProof { pk: pk.clone_key(), binding }
    }
}

/// The domain tag of the decryption-equality proof transcript.
pub open spec fn dec_dst() -> Seq<u8> {
    seq![68u8, 101, 99]
}

/// The transcript of a decryption-equality proof: the key, the combined
/// ciphertext, and the claimed plaintext.
pub open spec fn dec_binding(
    pk: Seq<u8>,
    cipher: Seq<u8>,
    plain: Seq<u8>,
    sr: Seq<u8>,
    sender: nat,
) -> Seq<u8> {
    proof_binding(dec_dst(), seq![pk, cipher, plain], sr, sender)
}

/// A decryption-equality proof, produced in the identification
/// sub-protocol.
pub struct DecProof {
    pub pk: PaillierPublicKey,
    pub binding: Vec<u8>,
}

impl DecProof {
    pub fn random(
        pk: &PaillierPublicKey,
        cipher: &Ciphertext,
        plain: &Scalar,
        sr: &Vec<u8>,
        sender: u32,
    ) -> (r: DecProof)
        requires
            pk.wf(),
            plain.wf(),
            cipher.rep().len() < 0x100000000,
            sr@.len() < 0x100000000,
        ensures
            r.pk.n_val() == pk.n_val(),
            r.binding@ == dec_binding(
                pk.rep(),
                cipher.rep(),
                plain.rep(),
                sr@,
                sender as nat,
            ),
    {
        let mut dst: Vec<u8> = Vec::new();
        dst.push(68);
        dst.push(101);
        dst.push(99);
        proof {
            assert(dst@ =~= dec_dst());
        }
        let mut parts: Vec<Vec<u8>> = Vec::new();
        parts.push(pk.n_bytes());
        parts.push(cipher.to_bytes());
        parts.push(plain.to_be_bytes());
        proof {
            assert(parts@.map_values(|c: Vec<u8>| c@) =~= seq![
                pk.rep(),
                cipher.rep(),
                plain.rep(),
            ]);
        }
        let binding = compute_binding(&dst, &parts, sr, sender);
        DecProof { pk: pk.clone_key(), binding }
    }
}

/// The domain-separation tag of the Schnorr transcript.
pub open spec fn sch_dst() -> Seq<u8> {
    seq![83u8, 99, 104, 80, 114, 111, 111, 102]
}

/// The Fiat–Shamir challenge of a Schnorr proof: the transcript hash of
/// the auxiliary data, the commitment and the public point, reduced into
/// the scalar field.
pub open spec fn sch_challenge(aux: Seq<u8>, commitment: Seq<u8>, public: Seq<u8>) -> nat {
    crate::bytes::be_val(
        sha256_of(framed(sch_dst()) + framed(aux) + framed(commitment) + framed(public)),
    ) % q_order()
}

fn sch_dst_vec() -> (r: Vec<u8>)
    ensures
        r@ == sch_dst(),
{
    let mut r: Vec<u8> = Vec::new();
    r.push(83);
    r.push(99);
    r.push(104);
    r.push(80);
    r.push(114);
    r.push(111);
    r.push(111);
    r.push(102);
    proof {
        assert(r@ =~= sch_dst());
    }
    r
}

fn sch_challenge_exec(aux: &Vec<u8>, commitment: &Vec<u8>, public: &Vec<u8>) -> (r: Scalar)
    requires
        aux@.len() < 0x100000000,
        commitment@.len() < 0x100000000,
        public@.len() < 0x100000000,
    ensures
        r.wf(),
        r.val() == sch_challenge(aux@, commitment@, public@),
{
    let dst = sch_dst_vec();
    let mut h = Hasher::new_with_dst(&dst);
    h.chain_bytes(aux);
    h.chain_bytes(commitment);
    h.chain_bytes(public);
    let digest = h.finalize();
    Scalar::from_reduced_bytes(&digest)
}

/// The prover's ephemeral secret of a Schnorr proof.
#[derive(Clone, Debug)]
pub struct SchSecret {
    pub a: Scalar,
}

impl SchSecret {
    pub fn random(rng: &mut crate::drbg::Drbg) -> (r: SchSecret)
        requires
            old(rng).wf(),
        ensures
            final (rng).wf(),
            r.a.wf(),
    {
        SchSecret { a: Scalar::random(rng) }
    }
}

/// The prover's commitment: the ephemeral secret times the generator.
#[derive(Clone, Debug)]
pub struct SchCommitment {
    pub cap_a: Point,
}

impl SchCommitment {
    pub fn new(secret: &SchSecret) -> (r: SchCommitment)
        requires
            secret.a.wf(),
        ensures
            r.cap_a.wf(),
            r.cap_a.rep() == point_of(secret.a.val()),
    {
        SchCommitment { cap_a: secret.a.mul_by_generator() }
    }
}

/// A Schnorr proof of knowledge of the discrete logarithm of a public
/// point, made non-interactive over the transcript hash.
#[derive(Clone, Debug)]
pub struct SchProof {
    pub challenge: Scalar,
    pub z: Scalar,
}

impl SchProof {
    pub open spec fn wf(&self) -> bool {
        self.challenge.wf() && self.z.wf()
    }

    /// Proves knowledge of `x` for `public == x·G`, binding the auxiliary
    /// data: `z = a + e·x` with `e` the transcript challenge.
    pub fn new(
        secret: &SchSecret,
        x: &Scalar,
        commitment: &SchCommitment,
        public: &Point,
        aux: &Vec<u8>,
    ) -> (r: SchProof)
        requires
            secret.a.wf(),
            x.wf(),
            commitment.cap_a.wf(),
            public.wf(),
            aux@.len() < 0x100000000,
            commitment.cap_a.rep().len() <= 33,
            public.rep().len() <= 33,
        ensures
            r.wf(),
            r.challenge.val() == sch_challenge(aux@, commitment.cap_a.rep(), public.rep()),
            r.z.val() == (secret.a.val() + sch_challenge(
                aux@,
                commitment.cap_a.rep(),
                public.rep(),
            ) * x.val() % q_order()) % q_order(),
    {
        let ca = commitment.cap_a.to_bytes();
        let pb = public.to_bytes();
        let e = sch_challenge_exec(aux, &ca, &pb);
        let z = secret.a.add(&e.mul(x));
        SchProof { challenge: e, z }
    }

    /// Accepts exactly when the stored challenge matches the transcript
    /// and the response satisfies the curve equation
    /// `z·G == A + e·X`.
    pub fn verify(&self, commitment: &SchCommitment, public: &Point, aux: &Vec<u8>) -> (r: bool)
        requires
            self.wf(),
            commitment.cap_a.wf(),
            public.wf(),
            aux@.len() < 0x100000000,
            commitment.cap_a.rep().len() <= 33,
            public.rep().len() <= 33,
        ensures
            r == ({
                &&& self.challenge.val() == sch_challenge(
                    aux@,
                    commitment.cap_a.rep(),
                    public.rep(),
                )
                &&& point_of(self.z.val()) == point_sum(
                    commitment.cap_a.rep(),
                    point_mul(public.rep(), self.challenge.val()),
                )
            }),
    {
        let ca = commitment.cap_a.to_bytes();
        let pb = public.to_bytes();
        let e = sch_challenge_exec(aux, &ca, &pb);
        if !self.challenge.equals(&e) {
            return false;
        }
        let lhs = self.z.mul_by_generator();
        let rhs = commitment.cap_a.add(&public.mul(&self.challenge));
        lhs.equals(&rhs)
    }
}

} // verus!
