//! Paillier encryption over byte-level big integers.
//!
//! Key, ciphertext, homomorphic addition and scalar multiplication,
//! randomizers, and signed-integer encryption. All operations are verified
//! against exact modular-arithmetic formulas; the formulas themselves rest
//! only on the big-integer wrappers. What is *not* claimed here is the
//! number-theoretic round trip `Dec(Enc(m)) == m`, which depends on
//! Fermat–Euler reasoning outside the verifier; the end-to-end tests
//! exercise it on every protocol run.

use crate::bigint::{mod_mul, mod_pow, mod_sub, nb_add, nb_div_rem, nb_modinv, nb_mul,
    nb_rem_sized, nb_sub};
use crate::bytes::{be_lt, be_val, byte_vec1, is_zero_bytes, pad_be, pow256, val_below_pow256};
use crate::group::{q_order, Scalar};
use vstd::arithmetic::power::pow;
use vstd::prelude::*;

verus! {

/// A Paillier public key: the modulus `N`.
#[derive(Clone, Debug)]
pub struct PaillierPublicKey {
    n: Vec<u8>,
}

/// A Paillier secret key: the modulus, the totient `phi = (p-1)(q-1)`, and
/// `mu`, the inverse of the totient modulo `N`.
#[derive(Clone, Debug)]
pub struct PaillierSecretKey {
    n: Vec<u8>,
    phi: Vec<u8>,
    mu: Vec<u8>,
}

/// A Paillier ciphertext: a residue modulo `N^2`.
#[derive(Clone, Debug)]
pub struct Ciphertext {
    c: Vec<u8>,
}

/// A Paillier randomizer: a nonzero residue modulo `N`.
#[derive(Clone, Debug)]
pub struct Randomizer {
    r: Vec<u8>,
}

/// A signed big integer: a sign and a magnitude.
#[derive(Clone, Debug)]
pub struct SignedBig {
    neg: bool,
    mag: Vec<u8>,
}

/// The Paillier encryption formula: `(N+1)^m * r^N mod N^2`.
pub open spec fn enc_val(n: nat, m: nat, r: nat) -> nat {
    ((pow(n as int + 1, m) * pow(r as int, n)) % ((n * n) as int)) as nat
}

/// The `L` function of Paillier decryption, `(x - 1) / N`, clamped to zero
/// on the one residue (`x == 0`) where the subtraction would underflow.
pub open spec fn l_clamped(x: nat, n: nat) -> nat {
    if x == 0 {
        0
    } else {
        (((x - 1) as int) / (n as int)) as nat
    }
}

/// The Paillier decryption formula: `L(c^phi mod N^2) * mu mod N`.
pub open spec fn dec_val(n: nat, phi: nat, mu: nat, c: nat) -> nat {
    (l_clamped((pow(c as int, phi) % ((n * n) as int)) as nat, n) * mu) % n
}

/// Centers a residue modulo `N` into `(-N/2, N/2]`.
pub open spec fn signed_decode(n: nat, m: nat) -> int {
    if m > n / 2 {
        m - n
    } else {
        m as int
    }
}

impl PaillierPublicKey {
    /// The stored modulus bytes.
    pub closed spec fn rep(&self) -> Seq<u8> {
        self.n@
    }

    /// The modulus value.
    pub open spec fn n_val(&self) -> nat {
        be_val(self.rep())
    }

    pub open spec fn wf(&self) -> bool {
        self.n_val() > 1 && 1 <= self.rep().len() <= 8192
    }

    /// Accepts any byte string denoting a modulus of at least two.
    pub fn from_n_bytes(bytes: &Vec<u8>) -> (r: Option<PaillierPublicKey>)
        ensures
            match r {
                Some(pk) => pk.wf() && pk.rep() == bytes@ && be_val(bytes@) > 1,
                None => be_val(bytes@) <= 1 || bytes@.len() > 8192,
            },
    {
        if bytes.len() == 0 {
            proof {
                assert(be_val(bytes@) == 0);
            }
            return None;
        }
        if bytes.len() > 8192 {
            return None;
        }
        let one = byte_vec1(1);
        let one_sized = pad_be(&one, bytes.len());
        if be_lt(&one_sized, bytes) {
            let n = bytes.clone();
            proof {
                assert(n@ =~= bytes@);
            }
            Some(PaillierPublicKey { n })
        } else {
            None
        }
    }

    /// The modulus, as bytes on the heap.
    pub fn n_bytes(&self) -> (r: Vec<u8>)
        ensures
            r@ == self.rep(),
            be_val(r@) == self.n_val(),
    {
        let r = self.n.clone();
        proof {
            assert(r@ =~= self.n@);
        }
        r
    }

    /// Modulus equality, on the values.
    pub fn same_modulus(&self, other: &PaillierPublicKey) -> (r: bool)
        ensures
            r == (self.n_val() == other.n_val()),
    {
        let a = nonempty_bytes(&self.n);
        let b = nonempty_bytes(&other.n);
        let la = a.len();
        let lb = b.len();
        if la < lb {
            let ap = pad_be(&a, lb);
            let e = crate::bytes::bytes_eq(&ap, &b);
            proof {
                if be_val(ap@) == be_val(b@) {
                    crate::group::lemma_be_val_injective(ap@, b@);
                }
            }
            e
        } else {
            let bp = pad_be(&b, la);
            let e = crate::bytes::bytes_eq(&a, &bp);
            proof {
                if be_val(a@) == be_val(bp@) {
                    crate::group::lemma_be_val_injective(a@, bp@);
                }
            }
            e
        }
    }

    /// The modulus squared, as bytes.
    pub fn n_squared(&self) -> (r: Vec<u8>)
        requires
            self.wf(),
        ensures
            be_val(r@) == self.n_val() * self.n_val(),
            be_val(r@) > 1,
            r@.len() <= 2 * self.rep().len(),
    {
        let r = nb_mul(&self.n, &self.n);
        proof {
            vstd::arithmetic::mul::lemma_mul_inequality(2, self.n_val() as int, self.n_val() as int);
            crate::bytes::lemma_be_val_bound(self.n@);
            crate::bytes::lemma_sq_bound(self.n_val(), self.n@.len());
            crate::bigint::lemma_minimal_fits(r@, 2 * self.n@.len() as int);
        }
        r
    }
}

/// Ensures a byte string is nonempty before a value comparison, so that
/// two moduli can be compared byte for byte after padding.
fn nonempty_bytes(v: &Vec<u8>) -> (r: Vec<u8>)
    ensures
        be_val(r@) == be_val(v@),
        r@.len() >= 1,
        r@.len() == if v@.len() == 0 {
            1
        } else {
            v@.len()
        },
{
    if v.len() == 0 {
        let r = byte_vec1(0);
        proof {
            assert(be_val(v@) == 0);
        }
        r
    } else {
        let r = v.clone();
        proof {
            assert(r@ =~= v@);
        }
        r
    }
}

impl PaillierSecretKey {
    pub closed spec fn n_val(&self) -> nat {
        be_val(self.n@)
    }

    pub closed spec fn phi_val(&self) -> nat {
        be_val(self.phi@)
    }

    pub closed spec fn mu_val(&self) -> nat {
        be_val(self.mu@)
    }

    /// The length of the stored modulus bytes.
    pub closed spec fn n_rep_len(&self) -> nat {
        self.n@.len()
    }

    pub open spec fn wf(&self) -> bool {
        &&& self.n_val() > 1
        &&& 1 <= self.n_rep_len() <= 8192
        &&& self.phi_val() > 0
        &&& (self.phi_val() * self.mu_val()) % self.n_val() == 1nat % self.n_val()
    }

    /// Builds a secret key from two primes: `N = p*q`,
    /// `phi = (p-1)(q-1)`, `mu = phi^-1 mod N`. Returns `None` exactly
    /// when the totient has no inverse modulo `N`, as happens when the
    /// factors are not distinct primes.
    pub fn from_primes(p: &Vec<u8>, q: &Vec<u8>) -> (r: Option<PaillierSecretKey>)
        requires
            be_val(p@) >= 3,
            be_val(q@) >= 3,
            be_val(p@) * be_val(q@) < pow256(8192),
        ensures
            match r {
                Some(sk) => {
                    &&& sk.wf()
                    &&& sk.n_val() == be_val(p@) * be_val(q@)
                    &&& sk.phi_val() == (be_val(p@) - 1) * (be_val(q@) - 1)
                },
                None => true,
            },
    {
        let n = nb_mul(p, q);
        proof {
            crate::bigint::lemma_minimal_fits(n@, 8192);
        }
        let one = byte_vec1(1);
        let pm1 = nb_sub(p, &one);
        let qm1 = nb_sub(q, &one);
        let phi = nb_mul(&pm1, &qm1);
        proof {
            vstd::arithmetic::mul::lemma_mul_inequality(3, be_val(p@) as int, be_val(q@) as int);
            vstd::arithmetic::mul::lemma_mul_inequality(
                2,
                (be_val(p@) - 1) as int,
                (be_val(q@) - 1) as int,
            );
        }
        match nb_modinv(&phi, &n) {
            Some(mu) => Some(PaillierSecretKey { n, phi, mu }),
            None => None,
        }
    }

    /// The public key belonging to this secret key.
    pub fn public_key(&self) -> (r: PaillierPublicKey)
        requires
            self.wf(),
        ensures
            r.wf(),
            r.n_val() == self.n_val(),
            r.rep().len() >= 1,
    {
        let n = self.n.clone();
        proof {
            assert(n@ =~= self.n@);
        }
        PaillierPublicKey { n }
    }
}

impl Randomizer {
    pub closed spec fn val(&self) -> nat {
        be_val(self.r@)
    }

    pub open spec fn wf_for(&self, n: nat) -> bool {
        0 < self.val() && self.val() < n
    }

    /// Draws a randomizer in `[1, N-1]`.
    pub fn random(rng: &mut crate::drbg::Drbg, pk: &PaillierPublicKey) -> (r: Randomizer)
        requires
            old(rng).wf(),
            pk.wf(),
        ensures
            final (rng).wf(),
            r.wf_for(pk.n_val()),
    {
        let n = pk.n_bytes();
        let one = byte_vec1(1);
        let nm1 = nb_sub(&n, &one);
        let wide = rng.fill(n.len() + 16);
        let reduced = if is_zero_bytes(&nm1) {
            // N - 1 == 0 cannot happen for a well-formed key; the branch
            // keeps the division total.
            byte_vec1(0)
        } else {
            nb_rem_sized(&wide, &nm1)
        };
        let r = nb_add(&reduced, &one);
        proof {
            if be_val(nm1@) != 0 {
                vstd::arithmetic::div_mod::lemma_mod_bound(
                    be_val(wide@) as int,
                    be_val(nm1@) as int,
                );
            }
        }
        Randomizer { r }
    }

    /// The randomizer value, as bytes.
    pub fn to_bytes(&self) -> (r: Vec<u8>)
        ensures
            be_val(r@) == self.val(),
    {
        let r = self.r.clone();
        proof {
            assert(r@ =~= self.r@);
        }
        r
    }
}

impl SignedBig {
    /// The signed value.
    pub closed spec fn ival(&self) -> int {
        if self.neg {
            0 - be_val(self.mag@)
        } else {
            be_val(self.mag@) as int
        }
    }

    /// The magnitude.
    pub closed spec fn mag_val(&self) -> nat {
        be_val(self.mag@)
    }

    /// A nonnegative signed value from raw magnitude bytes.
    pub fn from_unsigned(mag: Vec<u8>) -> (r: SignedBig)
        ensures
            r.ival() == be_val(mag@),
            r.mag_val() == be_val(mag@),
    {
        SignedBig { neg: false, mag }
    }

    /// The negation. A negative zero is permitted by the representation
    /// and denotes zero.
    pub fn negate(&self) -> (r: SignedBig)
        ensures
            r.ival() == 0 - self.ival(),
            r.mag_val() == self.mag_val(),
    {
        let mag = self.mag.clone();
        proof {
            assert(mag@ =~= self.mag@);
        }
        if is_zero_bytes(&mag) {
            SignedBig { neg: false, mag }
        } else {
            SignedBig { neg: !self.neg, mag }
        }
    }

    /// Draws a signed value whose magnitude has at most `bytes` bytes:
    /// uniform magnitude, uniform sign.
    pub fn random_bounded_bytes(rng: &mut crate::drbg::Drbg, bytes: usize) -> (r: SignedBig)
        requires
            old(rng).wf(),
        ensures
            final (rng).wf(),
            r.mag_val() < pow256(bytes as nat),
    {
        let mag = rng.fill(bytes);
        let sign_byte = rng.fill(1);
        proof {
            crate::bytes::lemma_be_val_bound(mag@);
        }
        SignedBig { neg: sign_byte[0] % 2 == 1, mag }
    }

    /// Whether the magnitude lies below `256^bytes`.
    pub fn magnitude_below(&self, bytes: usize) -> (r: bool)
        ensures
            r == (self.mag_val() < pow256(bytes as nat)),
    {
        val_below_pow256(&self.mag, bytes)
    }

    /// Reduces the signed value into the scalar field.
    pub fn to_scalar(&self) -> (r: Scalar)
        ensures
            r.wf(),
            r.val() as int == self.ival() % (q_order() as int),
    {
        proof {
            crate::group::lemma_q_positive();
        }
        let mag = self.mag_bytes();
        let reduced = Scalar::from_reduced_bytes(&mag);
        if self.neg {
            let r = reduced.neg();
            proof {
                let m = be_val(self.mag@) as int;
                let qi = q_order() as int;
                assert((0 - (m % qi)) % qi == (0 - m) % qi) by {
                    vstd::arithmetic::div_mod::lemma_sub_mod_noop(0, m, qi);
                    vstd::arithmetic::div_mod::lemma_small_mod(0, q_order());
                }
            }
            r
        } else {
            reduced
        }
    }
}

impl Ciphertext {
    /// The stored ciphertext bytes.
    pub closed spec fn rep(&self) -> Seq<u8> {
        self.c@
    }

    /// The ciphertext residue.
    pub open spec fn c_val(&self) -> nat {
        be_val(self.rep())
    }

    /// Well-formed for a modulus: a residue modulo `N^2`.
    pub open spec fn wf_for(&self, n: nat) -> bool {
        self.c_val() < n * n
    }

    /// The ciphertext bytes, sized like `N^2`.
    pub fn to_bytes(&self) -> (r: Vec<u8>)
        ensures
            r@ == self.rep(),
            be_val(r@) == self.c_val(),
    {
        let r = self.c.clone();
        proof {
            assert(r@ =~= self.c@);
        }
        r
    }

    /// Accepts any bytes below `N^2` as a ciphertext residue.
    pub fn try_from_bytes(pk: &PaillierPublicKey, bytes: &Vec<u8>) -> (r: Option<Ciphertext>)
        requires
            pk.wf(),
        ensures
            match r {
                Some(ct) => {
                    &&& ct.wf_for(pk.n_val())
                    &&& ct.rep() == bytes@
                    &&& be_val(bytes@) < pk.n_val() * pk.n_val()
                },
                None => be_val(bytes@) >= pk.n_val() * pk.n_val(),
            },
    {
        let n2 = pk.n_squared();
        let below = if bytes.len() <= n2.len() {
            let padded = pad_be(bytes, n2.len());
            be_lt(&padded, &n2)
        } else {
            let n2p = pad_be(&n2, bytes.len());
            be_lt(bytes, &n2p)
        };
        if below {
            let c = bytes.clone();
            proof {
                assert(c@ =~= bytes@);
            }
            Some(Ciphertext { c })
        } else {
            None
        }
    }

    /// Encrypts a nonnegative plaintext below `N` with the given
    /// randomizer: `(N+1)^m * rho^N mod N^2`.
    pub fn new_with_randomizer(
        pk: &PaillierPublicKey,
        m: &Vec<u8>,
        rho: &Randomizer,
    ) -> (r: Ciphertext)
        requires
            pk.wf(),
            be_val(m@) < pk.n_val(),
            rho.wf_for(pk.n_val()),
        ensures
            r.wf_for(pk.n_val()),
            r.c_val() == enc_val(pk.n_val(), be_val(m@), rho.val()),
            r.rep().len() <= 2 * pk.rep().len(),
    {
        let n = pk.n_bytes();
        let n2 = pk.n_squared();
        let one = byte_vec1(1);
        let np1 = nb_add(&n, &one);
        let base = mod_pow(&np1, m, &n2);
        let mask = mod_pow(&rho.to_bytes(), &n, &n2);
        let c = mod_mul(&base, &mask, &n2);
        proof {
            let ni = pk.n_val() as int;
            let n2i = (pk.n_val() * pk.n_val()) as int;
            let a = pow(ni + 1, be_val(m@));
            let b = pow(rho.val() as int, pk.n_val());
            assert(((a % n2i) * (b % n2i)) % n2i == (a * b) % n2i) by {
                vstd::arithmetic::div_mod::lemma_mul_mod_noop(a, b, n2i);
            }
            vstd::arithmetic::div_mod::lemma_mod_bound((a * b), n2i);
        }
        Ciphertext { c }
    }

    /// Encrypts a signed plaintext with magnitude below `N` by first
    /// reducing it into `[0, N)`.
    pub fn new_with_randomizer_signed(
        pk: &PaillierPublicKey,
        m: &SignedBig,
        rho: &Randomizer,
    ) -> (r: Ciphertext)
        requires
            pk.wf(),
            m.mag_val() < pk.n_val(),
            rho.wf_for(pk.n_val()),
        ensures
            r.wf_for(pk.n_val()),
            r.c_val() == enc_val(
                pk.n_val(),
                (m.ival() % (pk.n_val() as int)) as nat,
                rho.val(),
            ),
            r.rep().len() <= 2 * pk.rep().len(),
    {
        let n = pk.n_bytes();
        let residue = signed_residue(m, &n);
        Self::new_with_randomizer(pk, &residue, rho)
    }

    /// Homomorphic addition: the product of the ciphertexts modulo `N^2`.
    pub fn homomorphic_add(&self, pk: &PaillierPublicKey, other: &Ciphertext) -> (r: Ciphertext)
        requires
            pk.wf(),
        ensures
            r.wf_for(pk.n_val()),
            r.c_val() == (self.c_val() * other.c_val()) % (pk.n_val() * pk.n_val()),
            r.rep().len() <= 2 * pk.rep().len(),
    {
        let n2 = pk.n_squared();
        let c = mod_mul(&self.c, &other.c, &n2);
        proof {
            vstd::arithmetic::div_mod::lemma_mod_bound(
                (self.c_val() * other.c_val()) as int,
                (pk.n_val() * pk.n_val()) as int,
            );
        }
        Ciphertext { c }
    }

    /// Homomorphic multiplication by a nonnegative integer: the ciphertext
    /// raised to it modulo `N^2`.
    pub fn homomorphic_mul(&self, pk: &PaillierPublicKey, k: &Vec<u8>) -> (r: Ciphertext)
        requires
            pk.wf(),
        ensures
            r.wf_for(pk.n_val()),
            r.c_val() as int == pow(self.c_val() as int, be_val(k@)) % ((pk.n_val()
                * pk.n_val()) as int),
            r.rep().len() <= 2 * pk.rep().len(),
    {
        let n2 = pk.n_squared();
        let c = mod_pow(&self.c, k, &n2);
        proof {
            vstd::arithmetic::div_mod::lemma_mod_bound(
                pow(self.c_val() as int, be_val(k@)),
                (pk.n_val() * pk.n_val()) as int,
            );
        }
        Ciphertext { c }
    }

    /// Decrypts to the residue `L(c^phi mod N^2) * mu mod N`.
    pub fn decrypt(&self, sk: &PaillierSecretKey) -> (r: Vec<u8>)
        requires
            sk.wf(),
        ensures
            be_val(r@) == dec_val(sk.n_val(), sk.phi_val(), sk.mu_val(), self.c_val()),
            be_val(r@) < sk.n_val(),
    {
        let n = sk.n.clone();
        proof {
            assert(n@ =~= sk.n@);
        }
        let n2 = nb_mul(&n, &n);
        proof {
            vstd::arithmetic::mul::lemma_mul_inequality(2, sk.n_val() as int, sk.n_val() as int);
        }
        let x = mod_pow(&self.c, &sk.phi, &n2);
        let l = if is_zero_bytes(&x) {
            byte_vec1(0)
        } else {
            let one = byte_vec1(1);
            let xm1 = nb_sub(&x, &one);
            let (quot, _) = nb_div_rem(&xm1, &n);
            quot
        };
        let m = mod_mul(&l, &sk.mu, &n);
        proof {
            vstd::arithmetic::div_mod::lemma_mod_bound(
                (be_val(l@) * sk.mu_val()) as int,
                sk.n_val() as int,
            );
        }
        m
    }

    /// Decrypts and centers the plaintext into `(-N/2, N/2]`.
    pub fn decrypt_signed(&self, sk: &PaillierSecretKey) -> (r: SignedBig)
        requires
            sk.wf(),
        ensures
            r.ival() == signed_decode(
                sk.n_val(),
                dec_val(sk.n_val(), sk.phi_val(), sk.mu_val(), self.c_val()),
            ),
    {
        let m = self.decrypt(sk);
        let n = sk.n.clone();
        proof {
            assert(n@ =~= sk.n@);
        }
        let two = byte_vec1(2);
        let (half, _) = nb_div_rem(&n, &two);
        let hl = half.len();
        let ml = m.len();
        let width = if hl < ml {
            ml
        } else {
            hl
        };
        let half_p = pad_be(&half, width);
        let m_p = pad_be(&m, width);
        if be_lt(&half_p, &m_p) {
            let mag = nb_sub(&n, &m);
            SignedBig { neg: true, mag }
        } else {
            SignedBig { neg: false, mag: m }
        }
    }
}

/// The residue of a signed value modulo `N`, for a magnitude below `N`.
fn signed_residue(m: &SignedBig, n: &Vec<u8>) -> (r: Vec<u8>)
    requires
        be_val(n@) > 1,
        m.mag_val() < be_val(n@),
    ensures
        be_val(r@) as int == m.ival() % (be_val(n@) as int),
        be_val(r@) < be_val(n@),
{
    let mag = m.mag_bytes();
    let mag_sized = nb_rem_sized(&mag, n);
    proof {
        vstd::arithmetic::div_mod::lemma_small_mod(m.mag_val(), be_val(n@));
    }
    if m.is_negative() {
        let mut z: Vec<u8> = Vec::new();
        let mut i: usize = 0;
        while i < n.len()
            invariant
                0 <= i <= n@.len(),
                z@.len() == i,
                forall|j: int| 0 <= j < i ==> z@[j] == 0,
            decreases n@.len() - i,
        {
            z.push(0);
            i += 1;
        }
        proof {
            crate::bytes::lemma_be_val_zeroes(z@);
        }
        let r = mod_sub(&z, &mag_sized, n);
        proof {
            vstd::arithmetic::div_mod::lemma_mod_bound(0 - m.mag_val(), be_val(n@) as int);
        }
        r
    } else {
        proof {
            vstd::arithmetic::div_mod::lemma_mod_bound(m.mag_val() as int, be_val(n@) as int);
        }
        mag_sized
    }
}

impl SignedBig {
    /// The magnitude, as bytes on the heap.
    pub fn mag_bytes(&self) -> (r: Vec<u8>)
        ensures
            be_val(r@) == self.mag_val(),
    {
        let r = self.mag.clone();
        proof {
            assert(r@ =~= self.mag@);
        }
        r
    }

    /// Whether the value is negative.
    pub fn is_negative(&self) -> (r: bool)
        ensures
            !r ==> self.ival() == self.mag_val(),
            r ==> self.ival() == 0 - self.mag_val(),
    {
        self.neg
    }
}

impl PaillierPublicKey {
    /// An explicit copy with the same modulus bytes.
    pub fn clone_key(&self) -> (r: PaillierPublicKey)
        ensures
            r.n_val() == self.n_val(),
            r.rep() == self.rep(),
            r.wf() == self.wf(),
    {
        let n = self.n.clone();
        proof {
            assert(n@ =~= self.n@);
        }
        PaillierPublicKey { n }
    }
}

impl PaillierSecretKey {
    /// An explicit copy of the key material.
    pub fn clone_sk(&self) -> (r: PaillierSecretKey)
        ensures
            r.n_val() == self.n_val(),
            r.phi_val() == self.phi_val(),
            r.mu_val() == self.mu_val(),
            r.wf() == self.wf(),
    {
        let n = self.n.clone();
        let phi = self.phi.clone();
        let mu = self.mu.clone();
        proof {
            assert(n@ =~= self.n@);
            assert(phi@ =~= self.phi@);
            assert(mu@ =~= self.mu@);
        }
        PaillierSecretKey { n, phi, mu }
    }
}

impl Ciphertext {
    /// An explicit copy of the ciphertext bytes.
    pub fn clone_ct(&self) -> (r: Ciphertext)
        ensures
            r.c_val() == self.c_val(),
            r.rep() == self.rep(),
    {
        let c = self.c.clone();
        proof {
            assert(c@ =~= self.c@);
        }
        Ciphertext { c }
    }

    /// Wraps raw bytes as a ciphertext residue without interpretation.
    pub fn from_raw_bytes(bytes: &Vec<u8>) -> (r: Ciphertext)
        ensures
            r.c_val() == be_val(bytes@),
            r.rep() == bytes@,
    {
        let c = bytes.clone();
        proof {
            assert(c@ =~= bytes@);
        }
        Ciphertext { c }
    }
}

impl SignedBig {
    /// An explicit copy.
    pub fn dup(&self) -> (r: SignedBig)
        ensures
            r.ival() == self.ival(),
            r.mag_val() == self.mag_val(),
    {
        let mag = self.mag.clone();
        proof {
            assert(mag@ =~= self.mag@);
        }
        SignedBig { neg: self.neg, mag }
    }
}

/// A signed value is its magnitude or its negation.
pub proof fn lemma_signed_shape(s: &SignedBig)
    ensures
        s.ival() == s.mag_val() || s.ival() == 0 - s.mag_val(),
{
}

} // verus!
