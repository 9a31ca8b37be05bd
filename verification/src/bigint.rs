//! Arbitrary-precision natural-number arithmetic on big-endian byte strings.
//!
//! The Paillier primitives and the curve-scalar field work over numbers far
//! wider than any machine word. The arithmetic itself is delegated to
//! `num_bigint::BigUint` through the trusted wrappers below; every wrapper
//! states exactly, in terms of [`crate::bytes::be_val`], the number that the
//! delegated operation returns, so all logic built on top is verified against
//! ordinary integer arithmetic.

use crate::bytes::{be_val, lemma_be_val_bound, lemma_be_val_split, pad_be, pow256};
use num_bigint::BigUint;
use vstd::arithmetic::div_mod::lemma_mod_add_multiples_vanish;
use vstd::arithmetic::power::pow;
use vstd::prelude::*;

verus! {

/// Relies on num_bigint::BigUint addition (`from_bytes_be`, `+`, `to_bytes_be`).
/// `to_bytes_be` returns the minimal big-endian form (one zero byte for zero).
#[verifier::external_body]
pub fn nb_add(a: &Vec<u8>, b: &Vec<u8>) -> (r: Vec<u8>)
    ensures
        be_val(r@) == be_val(a@) + be_val(b@),
        r@.len() >= 1,
        r@[0] == 0 ==> r@.len() == 1,
{
    let x = BigUint::from_bytes_be(a) + BigUint::from_bytes_be(b);
    x.to_bytes_be()
}

/// Relies on num_bigint::BigUint subtraction, which panics on underflow;
/// the precondition rules underflow out.
#[verifier::external_body]
pub fn nb_sub(a: &Vec<u8>, b: &Vec<u8>) -> (r: Vec<u8>)
    requires
        be_val(b@) <= be_val(a@),
    ensures
        be_val(r@) == be_val(a@) - be_val(b@),
        r@.len() >= 1,
        r@[0] == 0 ==> r@.len() == 1,
{
    let x = BigUint::from_bytes_be(a) - BigUint::from_bytes_be(b);
    x.to_bytes_be()
}

/// Relies on num_bigint::BigUint multiplication.
#[verifier::external_body]
pub fn nb_mul(a: &Vec<u8>, b: &Vec<u8>) -> (r: Vec<u8>)
    ensures
        be_val(r@) == be_val(a@) * be_val(b@),
        r@.len() >= 1,
        r@[0] == 0 ==> r@.len() == 1,
{
    let x = BigUint::from_bytes_be(a) * BigUint::from_bytes_be(b);
    x.to_bytes_be()
}

/// Relies on num_bigint::BigUint Euclidean division (`/` and `%`), which
/// panics on a zero divisor; the precondition rules that out.
#[verifier::external_body]
pub fn nb_div_rem(a: &Vec<u8>, m: &Vec<u8>) -> (r: (Vec<u8>, Vec<u8>))
    requires
        be_val(m@) > 0,
    ensures
        be_val(r.0@) == be_val(a@) / be_val(m@),
        be_val(r.1@) == be_val(a@) % be_val(m@),
        r.0@.len() >= 1,
        r.0@[0] == 0 ==> r.0@.len() == 1,
        r.1@.len() >= 1,
        r.1@[0] == 0 ==> r.1@.len() == 1,
{
    let x = BigUint::from_bytes_be(a);
    let m = BigUint::from_bytes_be(m);
    let q = &x / &m;
    let rem = &x % &m;
    (q.to_bytes_be(), rem.to_bytes_be())
}

/// Relies on num_bigint::BigUint::modpow: `(self ^ exponent) % modulus`,
/// which panics on a zero modulus; the precondition rules that out.
#[verifier::external_body]
pub fn nb_modpow(b: &Vec<u8>, e: &Vec<u8>, m: &Vec<u8>) -> (r: Vec<u8>)
    requires
        be_val(m@) > 0,
    ensures
        be_val(r@) as int == pow(be_val(b@) as int, be_val(e@)) % (be_val(m@) as int),
        r@.len() >= 1,
        r@[0] == 0 ==> r@.len() == 1,
{
    let x = BigUint::from_bytes_be(b).modpow(&BigUint::from_bytes_be(e), &BigUint::from_bytes_be(m));
    x.to_bytes_be()
}

/// Relies on num_bigint::BigUint::modinv: returns the inverse in
/// `[0, modulus)` when one exists, and `None` exactly when none exists.
#[verifier::external_body]
pub fn nb_modinv(a: &Vec<u8>, m: &Vec<u8>) -> (r: Option<Vec<u8>>)
    requires
        be_val(m@) > 0,
    ensures
        match r {
            Some(x) => {
                &&& be_val(x@) < be_val(m@)
                &&& (be_val(a@) * be_val(x@)) % be_val(m@) == 1nat % be_val(m@)
                &&& x@.len() >= 1
                &&& (x@[0] == 0 ==> x@.len() == 1)
            },
            None => forall|x: nat|
                x < be_val(m@) ==> #[trigger] ((be_val(a@) * x) % be_val(m@)) != 1nat % be_val(
                    m@,
                ),
        },
{
    let x = BigUint::from_bytes_be(a).modinv(&BigUint::from_bytes_be(m));
    x.map(|v| v.to_bytes_be())
}

/// A minimal big-endian form that denotes a value below `256^len`
/// is at most `len` bytes long.
pub proof fn lemma_minimal_fits(s: Seq<u8>, len: int)
    requires
        s.len() >= 1,
        s[0] == 0 ==> s.len() == 1,
        len >= 1,
        be_val(s) < pow256(len as nat),
    ensures
        s.len() <= len,
{
    if s.len() > len {
        assert(s[0] >= 1);
        lemma_be_val_split(s, 1);
        assert(be_val(s.take(1)) >= 1) by {
            assert(s.take(1).drop_last() =~= Seq::<u8>::empty());
            assert(s.take(1).last() == s[0]);
        }
        crate::bytes::lemma_pow256_positive((s.len() - 1) as nat);
        assert(be_val(s) >= pow256((s.len() - 1) as nat)) by {
            vstd::arithmetic::mul::lemma_mul_inequality(
                1,
                be_val(s.take(1)) as int,
                pow256((s.len() - 1) as nat),
            );
        }
        assert(pow256((s.len() - 1) as nat) >= pow256(len as nat)) by {
            vstd::arithmetic::power::lemma_pow_increases(256, len as nat, (s.len() - 1) as nat);
        }
    }
}

/// Remainder by `m`, left-padded to the width of `m`.
pub fn nb_rem_sized(a: &Vec<u8>, m: &Vec<u8>) -> (r: Vec<u8>)
    requires
        be_val(m@) > 0,
    ensures
        be_val(r@) == be_val(a@) % be_val(m@),
        r@.len() == m@.len(),
{
    let (_, rem) = nb_div_rem(a, m);
    proof {
        vstd::arithmetic::div_mod::lemma_mod_bound(be_val(a@) as int, be_val(m@) as int);
        lemma_be_val_bound(m@);
        lemma_minimal_fits(rem@, m@.len() as int);
    }
    pad_be(&rem, m.len())
}

/// `(a + b) mod m`, sized like `m`.
pub fn mod_add(a: &Vec<u8>, b: &Vec<u8>, m: &Vec<u8>) -> (r: Vec<u8>)
    requires
        be_val(m@) > 0,
    ensures
        be_val(r@) == (be_val(a@) + be_val(b@)) % be_val(m@),
        r@.len() == m@.len(),
{
    let s = nb_add(a, b);
    nb_rem_sized(&s, m)
}

/// `(a * b) mod m`, sized like `m`.
pub fn mod_mul(a: &Vec<u8>, b: &Vec<u8>, m: &Vec<u8>) -> (r: Vec<u8>)
    requires
        be_val(m@) > 0,
    ensures
        be_val(r@) == (be_val(a@) * be_val(b@)) % be_val(m@),
        r@.len() == m@.len(),
{
    let s = nb_mul(a, b);
    nb_rem_sized(&s, m)
}

/// `(a - b) mod m` for `a, b < m`, sized like `m`; the result is the
/// Euclidean remainder of the integer difference.
pub fn mod_sub(a: &Vec<u8>, b: &Vec<u8>, m: &Vec<u8>) -> (r: Vec<u8>)
    requires
        be_val(m@) > 0,
        be_val(a@) < be_val(m@),
        be_val(b@) < be_val(m@),
    ensures
        be_val(r@) as int == (be_val(a@) - be_val(b@)) % (be_val(m@) as int),
        r@.len() == m@.len(),
{
    let shifted = nb_add(a, m);
    let diff = nb_sub(&shifted, b);
    let r = nb_rem_sized(&diff, m);
    proof {
        let av = be_val(a@) as int;
        let bv = be_val(b@) as int;
        let mv = be_val(m@) as int;
        lemma_mod_add_multiples_vanish(av - bv, mv);
    }
    r
}

/// `(b ^ e) mod m`, sized like `m`.
pub fn mod_pow(b: &Vec<u8>, e: &Vec<u8>, m: &Vec<u8>) -> (r: Vec<u8>)
    requires
        be_val(m@) > 0,
    ensures
        be_val(r@) as int == pow(be_val(b@) as int, be_val(e@)) % (be_val(m@) as int),
        r@.len() == m@.len(),
{
    let p = nb_modpow(b, e, m);
    proof {
        vstd::arithmetic::div_mod::lemma_mod_bound(
            pow(be_val(b@) as int, be_val(e@)),
            be_val(m@) as int,
        );
        lemma_be_val_bound(m@);
        lemma_minimal_fits(p@, m@.len() as int);
    }
    pad_be(&p, m.len())
}

} // verus!
