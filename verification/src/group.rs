//! The secp256k1 group, adapted to byte-level values.
//!
//! Scalars are 32-byte big-endian residues modulo the curve order; their
//! field arithmetic is carried out through the verified big-integer layer,
//! so every operation has an exact modular-arithmetic contract. Points are
//! carried as SEC1 compressed encodings and every point operation is
//! delegated to the `k256` backend through trusted wrappers whose results
//! are named, never restated.

use crate::bigint::{mod_add, mod_mul, mod_sub, nb_div_rem, nb_modinv, nb_rem_sized, nb_sub};
use crate::bytes::{be_lt, be_val, bytes_eq, lemma_be_val_split, lemma_be_val_zeroes, pad_be};
use k256::elliptic_curve::group::ff::PrimeField;
use k256::elliptic_curve::point::AffineCoordinates;
use k256::elliptic_curve::sec1::{EncodedPoint, FromEncodedPoint, ToEncodedPoint};
use k256::Secp256k1;
use signature::hazmat::{PrehashSigner, PrehashVerifier};
use vstd::prelude::*;

verus! {

/// The big-endian bytes of the secp256k1 group order.
pub open spec fn q_seq() -> Seq<u8> {
    seq![
        0xffu8,
        0xff,
        0xff,
        0xff,
        0xff,
        0xff,
        0xff,
        0xff,
        0xff,
        0xff,
        0xff,
        0xff,
        0xff,
        0xff,
        0xff,
        0xfe,
        0xba,
        0xae,
        0xdc,
        0xe6,
        0xaf,
        0x48,
        0xa0,
        0x3b,
        0xbf,
        0xd2,
        0x5e,
        0x8c,
        0xd0,
        0x36,
        0x41,
        0x41,
    ]
}

/// The secp256k1 group order.
pub open spec fn q_order() -> nat {
    be_val(q_seq())
}

/// The group order is a large number; callers mostly need that it is
/// positive and at least three.
pub proof fn lemma_q_positive()
    ensures
        q_order() > 2,
{
    lemma_be_val_split(q_seq(), 1);
    assert(be_val(q_seq().take(1)) == 0xff) by {
        assert(q_seq().take(1).drop_last() =~= Seq::<u8>::empty());
        assert(q_seq().take(1).last() == 0xffu8);
        assert(be_val(Seq::<u8>::empty()) == 0);
    }
    crate::bytes::lemma_pow256_positive(31);
    assert(0xff * crate::bytes::pow256(31) >= 0xff * 1) by {
        vstd::arithmetic::mul::lemma_mul_inequality(1, crate::bytes::pow256(31), 0xff);
        vstd::arithmetic::mul::lemma_mul_is_commutative(0xff, crate::bytes::pow256(31));
    }
}

/// The group order, as bytes on the heap.
pub fn q_vec() -> (r: Vec<u8>)
    ensures
        r@ == q_seq(),
        r@.len() == 32,
{
    let mut r: Vec<u8> = Vec::new();
    let mut i: usize = 0;
    while i < 15
        invariant
            0 <= i <= 15,
            r@.len() == i,
            forall|j: int| 0 <= j < i ==> r@[j] == 0xffu8,
        decreases 15 - i,
    {
        r.push(0xff);
        i += 1;
    }
    r.push(0xfe);
    r.push(0xba);
    r.push(0xae);
    r.push(0xdc);
    r.push(0xe6);
    r.push(0xaf);
    r.push(0x48);
    r.push(0xa0);
    r.push(0x3b);
    r.push(0xbf);
    r.push(0xd2);
    r.push(0x5e);
    r.push(0x8c);
    r.push(0xd0);
    r.push(0x36);
    r.push(0x41);
    r.push(0x41);
    proof {
        assert(r@ =~= q_seq());
    }
    r
}

/// Equal-length byte strings with equal values are equal.
pub proof fn lemma_be_val_injective(a: Seq<u8>, b: Seq<u8>)
    requires
        a.len() == b.len(),
        be_val(a) == be_val(b),
    ensures
        a == b,
    decreases a.len(),
{
    if a.len() > 0 {
        let x = a.last() as int;
        let y = b.last() as int;
        let ad = be_val(a.drop_last()) as int;
        let bd = be_val(b.drop_last()) as int;
        assert(ad * 256 + x == bd * 256 + y);
        assert(x == y && ad == bd) by {
            assert((ad - bd) * 256 == y - x) by {
                vstd::arithmetic::mul::lemma_mul_is_distributive_sub_other_way(256, ad, bd);
            }
            if ad > bd {
                vstd::arithmetic::mul::lemma_mul_inequality(1, ad - bd, 256);
            }
            if ad < bd {
                vstd::arithmetic::mul::lemma_mul_inequality(1, bd - ad, 256);
                vstd::arithmetic::mul::lemma_mul_is_distributive_sub_other_way(256, bd, ad);
            }
        }
        lemma_be_val_injective(a.drop_last(), b.drop_last());
        assert forall|i: int| 0 <= i < a.len() implies a[i] == b[i] by {
            if i < a.len() - 1 {
                assert(a[i] == a.drop_last()[i]);
                assert(b[i] == b.drop_last()[i]);
            }
        }
        assert(a =~= b);
    } else {
        assert(a =~= b);
    }
}

/// An element of the scalar field of secp256k1: a residue modulo the group
/// order, in 32 big-endian bytes.
#[derive(Clone, Debug)]
pub struct Scalar {
    b: Vec<u8>,
}

/// The sum of a sequence of naturals (summed left to right).
pub open spec fn nat_sum(s: Seq<nat>) -> nat
    decreases s.len(),
{
    if s.len() == 0 {
        0
    } else {
        nat_sum(s.drop_last()) + s.last()
    }
}

impl Scalar {
    /// The residue this scalar denotes.
    pub closed spec fn val(&self) -> nat {
        be_val(self.b@)
    }

    /// The representation bytes, as an abstract sequence.
    pub closed spec fn rep(&self) -> Seq<u8> {
        self.b@
    }

    /// Well-formed: exactly 32 bytes, value below the group order.
    pub open spec fn wf(&self) -> bool {
        self.rep().len() == 32 && self.val() < q_order()
    }

    /// The canonical 32-byte big-endian representation.
    pub fn to_be_bytes(&self) -> (r: Vec<u8>)
        requires
            self.wf(),
        ensures
            r@.len() == 32,
            be_val(r@) == self.val(),
            r@ == self.rep(),
    {
        let r = self.b.clone();
        proof {
            assert(r@ =~= self.b@);
        }
        r
    }

    /// The number of bytes in the representation.
    pub fn repr_len() -> (r: usize)
        ensures
            r == 32,
    {
        32
    }

    /// The zero scalar.
    pub fn zero() -> (r: Scalar)
        ensures
            r.wf(),
            r.val() == 0,
    {
        let mut b: Vec<u8> = Vec::new();
        let mut i: usize = 0;
        while i < 32
            invariant
                0 <= i <= 32,
                b@.len() == i,
                forall|j: int| 0 <= j < i ==> b@[j] == 0u8,
            decreases 32 - i,
        {
            b.push(0);
            i += 1;
        }
        proof {
            lemma_be_val_zeroes(b@);
            lemma_q_positive();
        }
        Scalar { b }
    }

    /// The scalar one.
    pub fn one() -> (r: Scalar)
        ensures
            r.wf(),
            r.val() == 1,
    {
        let mut b: Vec<u8> = Vec::new();
        let mut i: usize = 0;
        while i < 31
            invariant
                0 <= i <= 31,
                b@.len() == i,
                forall|j: int| 0 <= j < i ==> b@[j] == 0u8,
            decreases 31 - i,
        {
            b.push(0);
            i += 1;
        }
        b.push(1);
        proof {
            lemma_be_val_zeroes(b@.drop_last());
            assert(be_val(b@) == be_val(b@.drop_last()) * 256 + 1);
            lemma_q_positive();
        }
        Scalar { b }
    }

    /// Interprets 32 arbitrary bytes as a scalar by reducing modulo the
    /// group order. Used for hash outputs and prehashed messages.
    pub fn from_reduced_bytes(bytes: &Vec<u8>) -> (r: Scalar)
        ensures
            r.wf(),
            r.val() == be_val(bytes@) % q_order(),
    {
        let q = q_vec();
        proof {
            lemma_q_positive();
        }
        let b = nb_rem_sized(bytes, &q);
        proof {
            vstd::arithmetic::div_mod::lemma_mod_bound(be_val(bytes@) as int, q_order() as int);
        }
        Scalar { b }
    }

    /// Accepts exactly the canonical representations: 32 bytes denoting a
    /// value below the group order.
    pub fn try_from_be_bytes(bytes: &Vec<u8>) -> (r: Option<Scalar>)
        ensures
            match r {
                Some(s) => s.wf() && s.val() == be_val(bytes@) && s.rep() == bytes@ && bytes@.len()
                    == 32,
                None => bytes@.len() != 32 || be_val(bytes@) >= q_order(),
            },
    {
        if bytes.len() != 32 {
            return None;
        }
        let q = q_vec();
        if be_lt(bytes, &q) {
            let b = bytes.clone();
            proof {
                assert(b@ =~= bytes@);
            }
            Some(Scalar { b })
        } else {
            None
        }
    }

    /// Scalar equality, decided on the canonical bytes.
    pub fn equals(&self, other: &Scalar) -> (r: bool)
        requires
            self.wf(),
            other.wf(),
        ensures
            r == (self.val() == other.val()),
    {
        let r = bytes_eq(&self.b, &other.b);
        proof {
            if self.val() == other.val() {
                lemma_be_val_injective(self.b@, other.b@);
            }
        }
        r
    }

    /// Addition in the scalar field.
    pub fn add(&self, other: &Scalar) -> (r: Scalar)
        requires
            self.wf(),
            other.wf(),
        ensures
            r.wf(),
            r.val() == (self.val() + other.val()) % q_order(),
    {
        let q = q_vec();
        proof {
            lemma_q_positive();
        }
        let b = mod_add(&self.b, &other.b, &q);
        proof {
            vstd::arithmetic::div_mod::lemma_mod_bound(
                (self.val() + other.val()) as int,
                q_order() as int,
            );
        }
        Scalar { b }
    }

    /// Subtraction in the scalar field.
    pub fn sub(&self, other: &Scalar) -> (r: Scalar)
        requires
            self.wf(),
            other.wf(),
        ensures
            r.wf(),
            r.val() as int == (self.val() - other.val()) % (q_order() as int),
    {
        let q = q_vec();
        proof {
            lemma_q_positive();
        }
        let b = mod_sub(&self.b, &other.b, &q);
        proof {
            vstd::arithmetic::div_mod::lemma_mod_bound(
                self.val() as int - other.val() as int,
                q_order() as int,
            );
        }
        Scalar { b }
    }

    /// Negation in the scalar field.
    pub fn neg(&self) -> (r: Scalar)
        requires
            self.wf(),
        ensures
            r.wf(),
            r.val() as int == (0 - self.val() as int) % (q_order() as int),
    {
        let z = Self::zero();
        z.sub(self)
    }

    /// Multiplication in the scalar field.
    pub fn mul(&self, other: &Scalar) -> (r: Scalar)
        requires
            self.wf(),
            other.wf(),
        ensures
            r.wf(),
            r.val() == (self.val() * other.val()) % q_order(),
    {
        let q = q_vec();
        proof {
            lemma_q_positive();
        }
        let b = mod_mul(&self.b, &other.b, &q);
        proof {
            vstd::arithmetic::div_mod::lemma_mod_bound(
                (self.val() * other.val()) as int,
                q_order() as int,
            );
        }
        Scalar { b }
    }

    /// Raises the scalar to a small power by repeated multiplication.
    pub fn pow(&self, exp: usize) -> (r: Scalar)
        requires
            self.wf(),
        ensures
            r.wf(),
            r.val() as int == vstd::arithmetic::power::pow(self.val() as int, exp as nat) % (
            q_order() as int),
    {
        proof {
            lemma_q_positive();
        }
        let mut result = Self::one();
        let mut i: usize = 0;
        proof {
            vstd::arithmetic::power::lemma_pow0(self.val() as int);
            vstd::arithmetic::div_mod::lemma_small_mod(1, q_order());
        }
        while i < exp
            invariant
                self.wf(),
                result.wf(),
                0 <= i <= exp,
                result.val() as int == vstd::arithmetic::power::pow(self.val() as int, i as nat) % (
                q_order() as int),
            decreases exp - i,
        {
            let next = result.mul(self);
            proof {
                let v = self.val() as int;
                let qi = q_order() as int;
                let p = vstd::arithmetic::power::pow(v, i as nat);
                assert((p % qi) * v % qi == p * v % qi) by {
                    vstd::arithmetic::div_mod::lemma_mul_mod_noop_left(p, v, qi);
                }
                assert(vstd::arithmetic::power::pow(v, (i + 1) as nat) == p * v) by {
                    vstd::arithmetic::power::lemma_pow1(v);
                    vstd::arithmetic::power::lemma_pow_adds(v, i as nat, 1);
                }
            }
            result = next;
            i += 1;
        }
        result
    }

    /// The multiplicative inverse, when one exists. For this prime group
    /// order an inverse exists for every nonzero scalar; what is proved
    /// here is the weaker arithmetic fact delivered by the inversion
    /// routine itself.
    pub fn invert(&self) -> (r: Option<Scalar>)
        requires
            self.wf(),
        ensures
            match r {
                Some(x) => {
                    &&& x.wf()
                    &&& (self.val() * x.val()) % q_order() == 1nat % q_order()
                },
                None => forall|x: nat|
                    x < q_order() ==> #[trigger] ((self.val() * x) % q_order()) != 1nat % q_order(),
            },
    {
        let q = q_vec();
        proof {
            lemma_q_positive();
        }
        match nb_modinv(&self.b, &q) {
            Some(inv) => {
                proof {
                    crate::bytes::lemma_be_val_bound(q_seq());
                    crate::bigint::lemma_minimal_fits(inv@, 32);
                }
                let b = pad_be(&inv, 32);
                Some(Scalar { b })
            },
            None => None,
        }
    }

    /// Whether the scalar lies in the upper half of the field.
    pub open spec fn is_high(&self) -> bool {
        self.val() > (q_order() - 1) / 2
    }

    /// Canonicalizes to the low half of the field: a high scalar is
    /// replaced by its negation.
    pub fn normalize(&self) -> (r: Scalar)
        requires
            self.wf(),
        ensures
            r.wf(),
            self.is_high() ==> r.val() == q_order() - self.val(),
            !self.is_high() ==> r.val() == self.val(),
    {
        let q = q_vec();
        let one = Self::one();
        proof {
            lemma_q_positive();
        }
        let qm1 = nb_sub(&q, &one.to_be_bytes());
        let mut two: Vec<u8> = Vec::new();
        two.push(2);
        proof {
            assert(two@.drop_last() =~= Seq::<u8>::empty());
            assert(be_val(Seq::<u8>::empty()) == 0);
            assert(be_val(two@) == 2);
        }
        let (half, _) = nb_div_rem(&qm1, &two);
        proof {
            crate::bytes::lemma_be_val_bound(q_seq());
            vstd::arithmetic::div_mod::lemma_div_is_ordered(
                (q_order() - 1) as int,
                (q_order() - 1) as int * 2,
                2,
            );
            vstd::arithmetic::div_mod::lemma_div_by_multiple((q_order() - 1) as int, 2);
            crate::bigint::lemma_minimal_fits(half@, 32);
        }
        let half32 = pad_be(&half, 32);
        if be_lt(&half32, &self.b) {
            let r = self.neg();
            proof {
                let v = self.val() as int;
                let qi = q_order() as int;
                vstd::arithmetic::div_mod::lemma_mod_add_multiples_vanish(0 - v, qi);
                vstd::arithmetic::div_mod::lemma_small_mod((q_order() - self.val()) as nat, q_order());
            }
            r
        } else {
            Scalar { b: self.to_be_bytes() }
        }
    }

    /// A scalar drawn from the generator by reduction of 40 bytes, making
    /// the bias from the reduction negligible.
    pub fn random(rng: &mut crate::drbg::Drbg) -> (r: Scalar)
        requires
            old(rng).wf(),
        ensures
            final (rng).wf(),
            r.wf(),
    {
        let wide = rng.fill(40);
        Self::from_reduced_bytes(&wide)
    }

    /// Draws a scalar for a proof nonce. The exact sampling range of
    /// these nonces is an open point of the protocol; uniform sampling
    /// over the field is used here.
    pub fn random_in_range_j(rng: &mut crate::drbg::Drbg) -> (r: Scalar)
        requires
            old(rng).wf(),
        ensures
            final (rng).wf(),
            r.wf(),
    {
        Self::random(rng)
    }
}

/// The values denoted by a sequence of scalars.
pub open spec fn scalar_vals(s: Seq<Scalar>) -> Seq<nat> {
    s.map_values(|x: Scalar| x.val())
}

/// Sums a vector of scalars left to right.
pub fn scalar_sum(xs: &Vec<Scalar>) -> (r: Scalar)
    requires
        forall|i: int| 0 <= i < xs@.len() ==> xs@[i].wf(),
    ensures
        r.wf(),
        r.val() == nat_sum(scalar_vals(xs@)) % q_order(),
{
    proof {
        lemma_q_positive();
    }
    let mut acc = Scalar::zero();
    proof {
        assert(scalar_vals(xs@.take(0)) =~= Seq::<nat>::empty());
        vstd::arithmetic::div_mod::lemma_small_mod(0, q_order());
    }
    let mut i: usize = 0;
    while i < xs.len()
        invariant
            forall|k: int| 0 <= k < xs@.len() ==> xs@[k].wf(),
            0 <= i <= xs@.len(),
            acc.wf(),
            acc.val() == nat_sum(scalar_vals(xs@.take(i as int))) % q_order(),
        decreases xs@.len() - i,
    {
        let x = &xs[i];
        let next = acc.add(x);
        proof {
            let pre = scalar_vals(xs@.take(i as int));
            let post = scalar_vals(xs@.take(i + 1));
            assert(post.drop_last() =~= pre);
            assert(post.last() == xs@[i as int].val());
            let qi = q_order() as int;
            assert((nat_sum(pre) % q_order() + xs@[i as int].val()) % q_order() == nat_sum(post)
                % q_order()) by {
                vstd::arithmetic::div_mod::lemma_add_mod_noop(
                    nat_sum(pre) as int,
                    xs@[i as int].val() as int,
                    qi,
                );
                vstd::arithmetic::div_mod::lemma_small_mod(xs@[i as int].val(), q_order());
            }
        }
        acc = next;
        i += 1;
    }
    proof {
        assert(xs@.take(xs@.len() as int) =~= xs@);
    }
    acc
}

/// Draws `size` scalars whose sum is zero modulo the group order: the
/// first `size - 1` uniformly, the last as the negated sum. Zero members
/// are permitted; each is overwhelmingly unlikely.
pub fn zero_sum_scalars(rng: &mut crate::drbg::Drbg, size: usize) -> (r: Vec<Scalar>)
    requires
        old(rng).wf(),
        size >= 1,
    ensures
        final (rng).wf(),
        r@.len() == size,
        forall|i: int| 0 <= i < size ==> (#[trigger] r@[i]).wf(),
        nat_sum(scalar_vals(r@)) % q_order() == 0,
{
    proof {
        lemma_q_positive();
    }
    let mut scalars: Vec<Scalar> = Vec::new();
    let mut i: usize = 0;
    while i < size - 1
        invariant
            rng.wf(),
            0 <= i <= size - 1,
            scalars@.len() == i,
            forall|k: int| 0 <= k < i ==> (#[trigger] scalars@[k]).wf(),
        decreases size - 1 - i,
    {
        let s = Scalar::random(rng);
        scalars.push(s);
        i += 1;
    }
    let sum = scalar_sum(&scalars);
    let last = sum.neg();
    let ghost pre = scalars@;
    scalars.push(last);
    proof {
        let qi = q_order() as int;
        assert(scalar_vals(scalars@).drop_last() =~= scalar_vals(pre));
        assert(scalar_vals(scalars@).last() == last.val());
        let total = nat_sum(scalar_vals(scalars@)) as int;
        let s = nat_sum(scalar_vals(pre)) as int;
        let sm = s % qi;
        let lv = last.val() as int;
        assert(total == s + lv);
        vstd::arithmetic::div_mod::lemma_mod_bound(s, qi);
        assert((s + lv) % qi == (sm + lv) % qi) by {
            vstd::arithmetic::div_mod::lemma_add_mod_noop(s, lv, qi);
            vstd::arithmetic::div_mod::lemma_small_mod(last.val(), q_order());
        }
        assert(lv == (0 - sm) % qi) by {
            vstd::arithmetic::div_mod::lemma_mod_twice(s, qi);
        }
        if sm == 0 {
            assert(lv == 0) by {
                vstd::arithmetic::div_mod::lemma_small_mod(0, q_order());
            }
            vstd::arithmetic::div_mod::lemma_small_mod(0, q_order());
        } else {
            assert(lv == qi - sm) by {
                vstd::arithmetic::div_mod::lemma_mod_add_multiples_vanish(0 - sm, qi);
                vstd::arithmetic::div_mod::lemma_small_mod((qi - sm) as nat, q_order());
            }
            assert((sm + lv) % qi == 0) by {
                vstd::arithmetic::div_mod::lemma_mod_self_0(qi);
            }
        }
    }
    scalars
}

/// Whether a byte string is a SEC1 encoding of a secp256k1 point.
pub uninterp spec fn is_point(s: Seq<u8>) -> bool;

/// The compressed encoding of the group sum of two encoded points.
pub uninterp spec fn point_sum(a: Seq<u8>, b: Seq<u8>) -> Seq<u8>;

/// The compressed encoding of an encoded point multiplied by a scalar.
pub uninterp spec fn point_mul(p: Seq<u8>, k: nat) -> Seq<u8>;

/// The compressed encoding of the generator multiplied by a scalar.
pub uninterp spec fn point_of(k: nat) -> Seq<u8>;

/// The 32-byte big-endian affine x-coordinate of an encoded point.
pub uninterp spec fn point_x(p: Seq<u8>) -> Seq<u8>;

/// Relies on k256 SEC1 decoding (EncodedPoint::from_bytes followed by
/// ProjectivePoint::from_encoded_point): whether the bytes decode to a
/// point of the curve.
#[verifier::external_body]
fn pt_check(b: &Vec<u8>) -> (r: bool)
    ensures
        r == is_point(b@),
{
    match EncodedPoint::<Secp256k1>::from_bytes(b.as_slice()) {
        Ok(ep) => {
            let opt: Option<k256::ProjectivePoint> = k256::ProjectivePoint::from_encoded_point(
                &ep,
            ).into();
            opt.is_some()
        },
        Err(_) => false,
    }
}

/// Relies on k256::ProjectivePoint addition; the result is re-encoded in
/// compressed SEC1 form, which is at most 33 bytes.
#[verifier::external_body]
fn pt_add(a: &Vec<u8>, b: &Vec<u8>) -> (r: Vec<u8>)
    requires
        is_point(a@),
        is_point(b@),
    ensures
        r@ == point_sum(a@, b@),
        is_point(r@),
        r@.len() <= 33,
{
    let ea = EncodedPoint::<Secp256k1>::from_bytes(a.as_slice()).unwrap();
    let pa: k256::ProjectivePoint = Option::from(
        k256::ProjectivePoint::from_encoded_point(&ea),
    ).unwrap();
    let eb = EncodedPoint::<Secp256k1>::from_bytes(b.as_slice()).unwrap();
    let pb: k256::ProjectivePoint = Option::from(
        k256::ProjectivePoint::from_encoded_point(&eb),
    ).unwrap();
    (pa + pb).to_affine().to_encoded_point(true).as_bytes().to_vec()
}

/// Relies on k256::ProjectivePoint scalar multiplication; the scalar is the
/// canonical 32-byte form of a residue below the group order, so decoding
/// it cannot fail.
#[verifier::external_body]
fn pt_mul(p: &Vec<u8>, k: &Vec<u8>) -> (r: Vec<u8>)
    requires
        is_point(p@),
        k@.len() == 32,
        be_val(k@) < q_order(),
    ensures
        r@ == point_mul(p@, be_val(k@)),
        is_point(r@),
        r@.len() <= 33,
{
    let ep = EncodedPoint::<Secp256k1>::from_bytes(p.as_slice()).unwrap();
    let pp: k256::ProjectivePoint = Option::from(
        k256::ProjectivePoint::from_encoded_point(&ep),
    ).unwrap();
    let sk = k256::Scalar::from_repr(k256::FieldBytes::clone_from_slice(k.as_slice())).unwrap();
    (pp * sk).to_affine().to_encoded_point(true).as_bytes().to_vec()
}

/// Relies on k256::ProjectivePoint::GENERATOR and scalar multiplication.
#[verifier::external_body]
fn pt_gen_mul(k: &Vec<u8>) -> (r: Vec<u8>)
    requires
        k@.len() == 32,
        be_val(k@) < q_order(),
    ensures
        r@ == point_of(be_val(k@)),
        is_point(r@),
        r@.len() <= 33,
{
    let sk = k256::Scalar::from_repr(k256::FieldBytes::clone_from_slice(k.as_slice())).unwrap();
    (k256::ProjectivePoint::GENERATOR * sk).to_affine().to_encoded_point(true).as_bytes().to_vec()
}

/// Relies on k256::AffinePoint::x: the 32-byte big-endian affine
/// x-coordinate of a non-identity point.
#[verifier::external_body]
fn pt_x(p: &Vec<u8>) -> (r: Vec<u8>)
    requires
        is_point(p@),
        p@.len() == 33,
    ensures
        r@ == point_x(p@),
        r@.len() == 32,
{
    let ep = EncodedPoint::<Secp256k1>::from_bytes(p.as_slice()).unwrap();
    let pp: k256::ProjectivePoint = Option::from(
        k256::ProjectivePoint::from_encoded_point(&ep),
    ).unwrap();
    pp.to_affine().x().to_vec()
}

/// A point of the secp256k1 curve, carried as its SEC1 encoding.
#[derive(Clone, Debug)]
pub struct Point {
    b: Vec<u8>,
}

impl Point {
    /// The SEC1 encoding this point carries.
    pub closed spec fn rep(&self) -> Seq<u8> {
        self.b@
    }

    /// Well-formed: the bytes decode to a curve point.
    pub open spec fn wf(&self) -> bool {
        is_point(self.rep())
    }

    /// The encoding, as bytes on the heap.
    pub fn to_bytes(&self) -> (r: Vec<u8>)
        ensures
            r@ == self.rep(),
    {
        let r = self.b.clone();
        proof {
            assert(r@ =~= self.b@);
        }
        r
    }

    /// The length of the carried encoding (33 for an ordinary point,
    /// 1 for the identity).
    pub fn encoded_len(&self) -> (r: usize)
        ensures
            r == self.rep().len(),
    {
        self.b.len()
    }

    /// Accepts exactly the 33-byte compressed encodings of curve points.
    pub fn try_from_compressed_bytes(bytes: &Vec<u8>) -> (r: Option<Point>)
        ensures
            match r {
                Some(p) => {
                    &&& p.wf()
                    &&& p.rep() == bytes@
                    &&& bytes@.len() == 33
                    &&& (bytes@[0] == 2 || bytes@[0] == 3)
                },
                None => bytes@.len() != 33 || (bytes@[0] != 2 && bytes@[0] != 3) || !is_point(
                    bytes@,
                ),
            },
    {
        if bytes.len() != 33 {
            return None;
        }
        let tag = bytes[0];
        if tag != 2 && tag != 3 {
            return None;
        }
        if !pt_check(bytes) {
            return None;
        }
        let b = bytes.clone();
        proof {
            assert(b@ =~= bytes@);
        }
        Some(Point { b })
    }

    /// Group addition.
    pub fn add(&self, other: &Point) -> (r: Point)
        requires
            self.wf(),
            other.wf(),
        ensures
            r.wf(),
            r.rep() == point_sum(self.rep(), other.rep()),
            r.rep().len() <= 33,
    {
        Point { b: pt_add(&self.b, &other.b) }
    }

    /// Multiplication by a scalar.
    pub fn mul(&self, k: &Scalar) -> (r: Point)
        requires
            self.wf(),
            k.wf(),
        ensures
            r.wf(),
            r.rep() == point_mul(self.rep(), k.val()),
            r.rep().len() <= 33,
    {
        Point { b: pt_mul(&self.b, &k.to_be_bytes()) }
    }

    /// The affine x-coordinate reduced into the scalar field, as used for
    /// the `r` component of an ECDSA signature.
    pub fn x_coordinate(&self) -> (r: Scalar)
        requires
            self.wf(),
            self.rep().len() == 33,
        ensures
            r.wf(),
            r.val() == be_val(point_x(self.rep())) % q_order(),
    {
        let x = pt_x(&self.b);
        Scalar::from_reduced_bytes(&x)
    }

    /// Point equality, decided on the carried encodings; the compressed
    /// SEC1 encoding of a point is unique.
    pub fn equals(&self, other: &Point) -> (r: bool)
        ensures
            r == (self.rep() == other.rep()),
    {
        bytes_eq(&self.b, &other.b)
    }
}

impl Scalar {
    /// This scalar times the group generator.
    pub fn mul_by_generator(&self) -> (r: Point)
        requires
            self.wf(),
        ensures
            r.wf(),
            r.rep() == point_of(self.val()),
            r.rep().len() <= 33,
    {
        Point { b: pt_gen_mul(&self.to_be_bytes()) }
    }
}

/// Left-fold of group addition over a sequence of encodings, seeded with
/// `acc`: the order of summation is pinned so that every party computes
/// byte-identical aggregates.
pub open spec fn pt_fold(acc: Seq<u8>, s: Seq<Seq<u8>>) -> Seq<u8>
    decreases s.len(),
{
    if s.len() == 0 {
        acc
    } else {
        pt_fold(point_sum(acc, s[0]), s.skip(1))
    }
}

/// The encodings of a sequence of points.
pub open spec fn point_reps(s: Seq<Point>) -> Seq<Seq<u8>> {
    s.map_values(|p: Point| p.rep())
}

/// Sums a vector of points onto an accumulator, left to right.
pub fn point_fold_sum(acc: Point, points: &Vec<Point>) -> (r: Point)
    requires
        acc.wf(),
        forall|i: int| 0 <= i < points@.len() ==> (#[trigger] points@[i]).wf(),
    ensures
        r.wf(),
        r.rep() == pt_fold(acc.rep(), point_reps(points@)),
        points@.len() > 0 ==> r.rep().len() <= 33,
        points@.len() == 0 ==> r.rep() == acc.rep(),
{
    let mut cur = acc;
    proof {
        assert(point_reps(points@).skip(0) =~= point_reps(points@));
    }
    let mut i: usize = 0;
    while i < points.len()
        invariant
            forall|k: int| 0 <= k < points@.len() ==> (#[trigger] points@[k]).wf(),
            0 <= i <= points@.len(),
            cur.wf(),
            i > 0 ==> cur.rep().len() <= 33,
            pt_fold(cur.rep(), point_reps(points@).skip(i as int)) == pt_fold(
                acc.rep(),
                point_reps(points@),
            ),
        decreases points@.len() - i,
    {
        proof {
            assert(point_reps(points@).skip(i as int)[0] == points@[i as int].rep());
            assert(point_reps(points@).skip(i as int).skip(1) =~= point_reps(points@).skip(
                i + 1,
            ));
        }
        cur = cur.add(&points[i]);
        i += 1;
    }
    proof {
        assert(point_reps(points@).skip(points@.len() as int) =~= Seq::<Seq<u8>>::empty());
    }
    cur
}

/// Whether a signature in 64-byte wire form passes standard ECDSA prehash
/// verification under a SEC1-encoded verifying key; false as well when the
/// key or signature bytes do not parse.
pub uninterp spec fn ecdsa_ok(vk: Seq<u8>, m: Seq<u8>, sig: Seq<u8>) -> bool;

/// Relies on k256::ecdsa::VerifyingKey::verify_prehash (with
/// VerifyingKey::from_sec1_bytes and Signature::from_slice): deterministic
/// in the key, message and signature bytes.
#[verifier::external_body]
pub fn ecdsa_verify(vk: &Vec<u8>, msg: &Vec<u8>, sig: &Vec<u8>) -> (r: bool)
    ensures
        r == ecdsa_ok(vk@, msg@, sig@),
{
    let vk = match k256::ecdsa::VerifyingKey::from_sec1_bytes(vk.as_slice()) {
        Ok(k) => k,
        Err(_) => return false,
    };
    let sig = match k256::ecdsa::Signature::from_slice(sig.as_slice()) {
        Ok(s) => s,
        Err(_) => return false,
    };
    vk.verify_prehash(msg.as_slice(), &sig).is_ok()
}

/// Whether 32 bytes are a valid ECDSA signing key (a nonzero canonical
/// scalar).
pub uninterp spec fn is_signing_key(sk: Seq<u8>) -> bool;

/// The compressed SEC1 encoding of the verifying key of a signing key.
pub uninterp spec fn vk_of(sk: Seq<u8>) -> Seq<u8>;

/// The 64-byte RFC 6979 deterministic ECDSA signature of a 32-byte prehash
/// under a signing key; a function of the key and message bytes alone.
pub uninterp spec fn ecdsa_sig_of(sk: Seq<u8>, m: Seq<u8>) -> Seq<u8>;

/// Relies on k256::ecdsa::SigningKey::from_slice: whether the bytes are
/// accepted as a signing key.
#[verifier::external_body]
pub fn sk_check(sk: &Vec<u8>) -> (r: bool)
    ensures
        r == is_signing_key(sk@),
{
    k256::ecdsa::SigningKey::from_slice(sk.as_slice()).is_ok()
}

/// Relies on k256::ecdsa::SigningKey::verifying_key, re-encoded in
/// compressed SEC1 form.
#[verifier::external_body]
pub fn sk_verifying_key(sk: &Vec<u8>) -> (r: Vec<u8>)
    requires
        is_signing_key(sk@),
    ensures
        r@ == vk_of(sk@),
        r@.len() == 33,
{
    let k = k256::ecdsa::SigningKey::from_slice(sk.as_slice()).unwrap();
    k.verifying_key().to_encoded_point(true).as_bytes().to_vec()
}

/// Relies on k256::ecdsa::SigningKey::sign_prehash (RFC 6979): the
/// signature is a function of the key and prehash alone, and verifies
/// under the key's verifying key. The backend reports an error rather
/// than a signature if the deterministically derived nonce yields a zero
/// component, an event with no known exhibiting input; it is passed on as
/// `None` rather than excluded by precondition.
#[verifier::external_body]
pub fn ecdsa_sign(sk: &Vec<u8>, msg: &Vec<u8>) -> (r: Option<Vec<u8>>)
    requires
        is_signing_key(sk@),
        msg@.len() == 32,
    ensures
        match r {
            Some(sig) => {
                &&& sig@ == ecdsa_sig_of(sk@, msg@)
                &&& sig@.len() == 64
                &&& ecdsa_ok(vk_of(sk@), msg@, sig@)
            },
            None => true,
        },
{
    let k = k256::ecdsa::SigningKey::from_slice(sk.as_slice()).unwrap();
    match signature::hazmat::PrehashSigner::<k256::ecdsa::Signature>::sign_prehash(
        &k,
        msg.as_slice(),
    ) {
        Ok(sig) => Some(sig.to_bytes().to_vec()),
        Err(_) => None,
    }
}

/// An ECDSA signature as a pair of nonzero field scalars.
#[derive(Clone, Debug)]
pub struct Signature {
    r: Scalar,
    s: Scalar,
}

impl Signature {
    /// The `r` component's value.
    pub closed spec fn r_val(&self) -> nat {
        self.r.val()
    }

    /// The `s` component's value.
    pub closed spec fn s_val(&self) -> nat {
        self.s.val()
    }

    pub closed spec fn wf(&self) -> bool {
        self.r.wf() && self.s.wf() && self.r.val() != 0 && self.s.val() != 0
    }

    /// The 64-byte wire form: `r` then `s`, each 32 bytes big-endian.
    pub closed spec fn wire(&self) -> Seq<u8> {
        self.r.rep() + self.s.rep()
    }

    /// Builds a signature from the two scalars; `None` exactly when either
    /// scalar is zero.
    pub fn from_scalars(r: &Scalar, s: &Scalar) -> (res: Option<Signature>)
        requires
            r.wf(),
            s.wf(),
        ensures
            match res {
                Some(sig) => {
                    &&& sig.wf()
                    &&& sig.r_val() == r.val()
                    &&& sig.s_val() == s.val()
                    &&& r.val() != 0
                    &&& s.val() != 0
                },
                None => r.val() == 0 || s.val() == 0,
            },
    {
        let z = Scalar::zero();
        if r.equals(&z) || s.equals(&z) {
            return None;
        }
        Some(Signature { r: Scalar { b: r.to_be_bytes() }, s: Scalar { b: s.to_be_bytes() } })
    }

    /// The 64-byte wire form on the heap.
    pub fn to_wire_bytes(&self) -> (res: Vec<u8>)
        requires
            self.wf(),
        ensures
            res@ == self.wire(),
            res@.len() == 64,
    {
        let mut out = self.r.to_be_bytes();
        let sb = self.s.to_be_bytes();
        let mut i: usize = 0;
        while i < sb.len()
            invariant
                0 <= i <= sb@.len(),
                out@ == self.r.rep() + sb@.take(i as int),
                sb@.len() == 32,
                self.r.rep().len() == 32,
            decreases sb@.len() - i,
        {
            let b = sb[i];
            out.push(b);
            assert(out@ =~= self.r.rep() + sb@.take(i + 1));
            i += 1;
        }
        proof {
            assert(sb@.take(32) =~= sb@);
        }
        out
    }

    /// Standard ECDSA prehash verification of this signature under a
    /// verifying key, on a message already reduced into the scalar field.
    pub fn verify(&self, vkey: &Point, message: &Scalar) -> (res: bool)
        requires
            self.wf(),
            vkey.wf(),
            message.wf(),
        ensures
            res == ecdsa_ok(vkey.rep(), message.rep(), self.wire()),
    {
        let wire = self.to_wire_bytes();
        let vk = vkey.to_bytes();
        let msg = message.to_be_bytes();
        ecdsa_verify(&vk, &msg, &wire)
    }
}

/// The result of interactive signing: the signature and the recovery bit
/// that lets the verifying key be recovered from the prehash.
#[derive(Clone, Debug)]
pub struct RecoverableSignature {
    sig: Signature,
    recovery: u8,
}

impl RecoverableSignature {
    pub closed spec fn wf(&self) -> bool {
        self.sig.wf() && self.recovery < 2
    }

    pub closed spec fn sig_spec(&self) -> Signature {
        self.sig
    }

    pub closed spec fn recovery_spec(&self) -> u8 {
        self.recovery
    }

    pub fn new(sig: Signature, recovery: u8) -> (r: RecoverableSignature)
        requires
            sig.wf(),
            recovery < 2,
        ensures
            r.wf(),
            r.sig_spec() == sig,
            r.recovery_spec() == recovery,
    {
        RecoverableSignature { sig, recovery }
    }

    /// The signature without the recovery information.
    pub fn signature(&self) -> (r: &Signature)
        ensures
            r == self.sig_spec(),
    {
        &self.sig
    }

    /// The wire form and recovery byte, for external verification and key
    /// recovery.
    pub fn to_backend(&self) -> (r: (Vec<u8>, u8))
        requires
            self.wf(),
        ensures
            r.0@ == self.sig_spec().wire(),
            r.0@.len() == 64,
            r.1 == self.recovery_spec(),
            r.1 < 2,
    {
        (self.sig.to_wire_bytes(), self.recovery)
    }
}

impl Scalar {
    /// An explicit copy with the same representation.
    pub fn dup(&self) -> (r: Scalar)
        ensures
            r.val() == self.val(),
            r.rep() == self.rep(),
            r.wf() == self.wf(),
    {
        let b = self.b.clone();
        proof {
            assert(b@ =~= self.b@);
        }
        Scalar { b }
    }
}

impl Point {
    /// An explicit copy with the same encoding.
    pub fn dup(&self) -> (r: Point)
        ensures
            r.rep() == self.rep(),
            r.wf() == self.wf(),
    {
        let b = self.b.clone();
        proof {
            assert(b@ =~= self.b@);
        }
        Point { b }
    }
}

impl Signature {
    /// An explicit copy.
    pub fn dup(&self) -> (r: Signature)
        ensures
            r.r_val() == self.r_val(),
            r.s_val() == self.s_val(),
            r.wire() == self.wire(),
            r.wf() == self.wf(),
    {
        Signature { r: self.r.dup(), s: self.s.dup() }
    }
}

impl RecoverableSignature {
    /// An explicit copy.
    pub fn dup(&self) -> (r: RecoverableSignature)
        ensures
            r.sig_spec().r_val() == self.sig_spec().r_val(),
            r.sig_spec().s_val() == self.sig_spec().s_val(),
            r.sig_spec().wire() == self.sig_spec().wire(),
            r.recovery_spec() == self.recovery_spec(),
            r.wf() == self.wf(),
    {
        RecoverableSignature { sig: self.sig.dup(), recovery: self.recovery }
    }
}

/// The verifying key of a signing key, for callers that have not yet
/// established that the bytes are one: `None` exactly when they are not.
pub fn verifying_key_of(sk: &Vec<u8>) -> (r: Option<Vec<u8>>)
    ensures
        match r {
            Some(vk) => is_signing_key(sk@) && vk@ == vk_of(sk@) && vk@.len() == 33,
            None => !is_signing_key(sk@),
        },
{
    if sk_check(sk) {
        Some(sk_verifying_key(sk))
    } else {
        None
    }
}

} // verus!
