//! Centralized key-share generation, the test helper: one trusted dealer
//! draws the signing key's additive shares and every party's Paillier key,
//! and hands each party its share.

use crate::bigint::{mod_mul, mod_pow, nb_div_rem, nb_sub};
use crate::bytes::{be_val, byte_vec1, bytes_eq, is_zero_bytes, pad_be, pow256};
use crate::common::{Error, KeySharePublic, KeyShareSecret, MyFault, PRIME_BYTES};
use crate::drbg::Drbg;
use crate::group::Scalar;
use crate::paillier::PaillierSecretKey;
use crate::sessions::{KeyShare, PartyId};
use vstd::prelude::*;

verus! {

/// A Miller–Rabin probable-primality test over the big-integer layer.
/// The result carries no specification: primality is a property the
/// verifier cannot check, and the Paillier key built from the candidates
/// is exercised by the protocol tests.
fn is_probable_prime(rng: &mut Drbg, m: &Vec<u8>) -> (r: bool)
    requires
        old(rng).wf(),
        be_val(m@) >= 5,
        1 <= m@.len() <= 8192,
    ensures
        final (rng).wf(),
{
    let one = byte_vec1(1);
    let two = byte_vec1(2);
    let three = byte_vec1(3);
    let mm1 = nb_sub(m, &one);
    // Split m - 1 as d * 2^s with d odd.
    let mut d = mm1.clone();
    let mut s_count: usize = 0;
    let budget = 8 * m.len();
    let mut halvings: usize = 0;
    while halvings < budget
        invariant
            budget == 8 * m@.len(),
            m@.len() <= 8192,
            0 <= halvings <= budget,
            s_count <= halvings,
            be_val(two@) == 2,
        decreases budget - halvings,
    {
        if is_zero_bytes(&d) {
            break ;
        }
        let (q, rem) = nb_div_rem(&d, &two);
        if !is_zero_bytes(&rem) {
            break ;
        }
        d = q;
        s_count = s_count + 1;
        halvings += 1;
    }
    if is_zero_bytes(&d) {
        return false;
    }
    let mm3 = nb_sub(m, &three);
    if is_zero_bytes(&mm3) {
        return false;
    }
    let one_sized = pad_be(&one, m.len());
    let mm1_sized = crate::bigint::nb_rem_sized(&mm1, m);
    let mut round: usize = 0;
    while round < 15
        invariant
            rng.wf(),
            be_val(m@) >= 5,
            1 <= m@.len() <= 8192,
            be_val(mm3@) > 0,
            be_val(two@) == 2,
            one_sized@.len() == m@.len(),
            mm1_sized@.len() == m@.len(),
            s_count <= 8 * m@.len(),
            0 <= round <= 15,
        decreases 15 - round,
    {
        let wide = rng.fill(m.len() + 16);
        let a_red = crate::bigint::nb_rem_sized(&wide, &mm3);
        let a = crate::bigint::nb_add(&a_red, &two);
        let mut x = mod_pow(&a, &d, m);
        if bytes_eq(&x, &one_sized) || bytes_eq(&x, &mm1_sized) {
            round += 1;
            continue ;
        }
        let mut witnessed = false;
        let mut t: usize = 0;
        while t + 1 < s_count
            invariant
                rng.wf(),
                be_val(m@) >= 5,
                1 <= m@.len() <= 8192,
                mm1_sized@.len() == m@.len(),
                x@.len() == m@.len(),
                s_count <= 8 * m@.len(),
                0 <= t <= s_count,
            decreases s_count - t,
        {
            x = mod_mul(&x, &x, m);
            if bytes_eq(&x, &mm1_sized) {
                witnessed = true;
                break ;
            }
            t += 1;
        }
        if !witnessed {
            return false;
        }
        round += 1;
    }
    true
}

/// Draws a probable prime of exactly `PRIME_BYTES` bytes: top bit and low
/// bit forced, Miller–Rabin filtered. Fails only if the bounded number of
/// attempts is exhausted, which a sound generator makes vanishingly
/// unlikely.
fn gen_probable_prime(rng: &mut Drbg) -> (r: Result<Vec<u8>, Error>)
    requires
        old(rng).wf(),
    ensures
        final (rng).wf(),
        match r {
            Ok(p) => {
                &&& p@.len() == PRIME_BYTES
                &&& 5 <= be_val(p@)
                &&& pow256((PRIME_BYTES - 1) as nat) <= be_val(p@)
                &&& be_val(p@) < pow256(PRIME_BYTES as nat)
            },
            Err(_) => true,
        },
{
    let mut tries: usize = 0;
    while tries < 10000
        invariant
            rng.wf(),
            0 <= tries <= 10000,
        decreases 10000 - tries,
    {
        let mut cand = rng.fill(PRIME_BYTES);
        let b0 = cand[0];
        if b0 < 128 {
            cand.set(0, b0 + 128);
        }
        let last = cand[PRIME_BYTES - 1];
        if last % 2 == 0 {
            cand.set(PRIME_BYTES - 1, last + 1);
        }
        proof {
            crate::bytes::lemma_be_val_lower(cand@, 0);
            crate::bytes::lemma_pow256_positive((PRIME_BYTES - 1) as nat);
            assert(pow256((PRIME_BYTES - 1) as nat) >= pow256(1)) by {
                vstd::arithmetic::power::lemma_pow_increases(256, 1, (PRIME_BYTES - 1) as nat);
            }
            assert(pow256(1) == 256) by {
                vstd::arithmetic::power::lemma_pow1(256);
            }
            crate::bytes::lemma_be_val_bound(cand@);
        }
        if is_probable_prime(rng, &cand) {
            return Ok(cand);
        }
        tries += 1;
    }
    Err(Error::MyFault(MyFault::InvalidState))
}

/// Builds a Paillier secret key from two fresh probable primes, retrying
/// when the totient is not invertible.
fn gen_paillier_sk(rng: &mut Drbg) -> (r: Result<PaillierSecretKey, Error>)
    requires
        old(rng).wf(),
    ensures
        final (rng).wf(),
        match r {
            Ok(sk) => sk.wf() && sk.n_val() >= pow256(66),
            Err(_) => true,
        },
{
    let mut tries: usize = 0;
    while tries < 100
        invariant
            rng.wf(),
            0 <= tries <= 100,
        decreases 100 - tries,
    {
        let p = gen_probable_prime(rng)?;
        let q = gen_probable_prime(rng)?;
        if bytes_eq(&p, &q) {
            tries += 1;
            continue ;
        }
        proof {
            lemma_prime_product_bounds(be_val(p@), be_val(q@));
        }
        match PaillierSecretKey::from_primes(&p, &q) {
            Some(sk) => {
                return Ok(sk);
            },
            None => {
                tries += 1;
            },
        }
    }
    Err(Error::MyFault(MyFault::InvalidState))
}

/// The product of two full-width prime candidates lies between the
/// modulus floor and the key-size ceiling.
proof fn lemma_prime_product_bounds(p: nat, q: nat)
    requires
        pow256((PRIME_BYTES - 1) as nat) <= p < pow256(PRIME_BYTES as nat),
        pow256((PRIME_BYTES - 1) as nat) <= q < pow256(PRIME_BYTES as nat),
    ensures
        p * q >= pow256(66),
        p * q < pow256(8192),
{
    crate::bytes::lemma_pow256_positive(33);
    crate::bytes::lemma_pow256_positive(34);
    assert(p * q >= pow256(33) * pow256(33)) by {
        vstd::arithmetic::mul::lemma_mul_inequality(pow256(33), p as int, q as int);
        vstd::arithmetic::mul::lemma_mul_inequality(pow256(33), q as int, pow256(33));
        vstd::arithmetic::mul::lemma_mul_is_commutative(q as int, pow256(33));
        vstd::arithmetic::mul::lemma_mul_inequality(pow256(33), p as int, pow256(33));
        assert(p * q >= pow256(33) * q) by (nonlinear_arith)
            requires
                p >= pow256(33),
                q > 0,
        {}
        assert(pow256(33) * q >= pow256(33) * pow256(33)) by (nonlinear_arith)
            requires
                q >= pow256(33),
                pow256(33) > 0,
        {}
    }
    assert(pow256(33) * pow256(33) == pow256(66)) by {
        vstd::arithmetic::power::lemma_pow_adds(256, 33, 33);
    }
    assert(p * q < pow256(68)) by {
        crate::bytes::lemma_sq_bound(if p > q {
            p
        } else {
            q
        }, 34);
        assert(p * q <= (if p > q {
            p
        } else {
            q
        }) * (if p > q {
            p
        } else {
            q
        })) by (nonlinear_arith)
            requires
                p > 0,
                q > 0,
        {}
    }
    assert(pow256(68) <= pow256(8192)) by {
        vstd::arithmetic::power::lemma_pow_increases(256, 68, 8192);
    }
}

/// Draws every party's key material: a random additive share of the
/// signing key and a fresh Paillier key per party, with the same public
/// table handed to everyone.
pub fn make_key_shares<I: PartyId>(rng: &mut Drbg, parties: &Vec<I>) -> (r: Result<
    Vec<KeyShare<I>>,
    Error,
>)
    requires
        old(rng).wf(),
        2 <= parties@.len() <= 0xffffffff,
    ensures
        final (rng).wf(),
        match r {
            Ok(shares) => {
                &&& shares@.len() == parties@.len()
                &&& forall|i: int| 0 <= i < shares@.len() ==> (#[trigger] shares@[i]).wf()
                &&& forall|i: int|
                    0 <= i < shares@.len() ==> (#[trigger] shares@[i]).index == i
                        && shares@[i].id.id_spec() == parties@[i].id_spec()
                &&& forall|i: int, j: int|
                    0 <= i < shares@.len() && 0 <= j < parties@.len()
                        ==> (#[trigger] shares@[i].publics@[j]).x.rep()
                        == shares@[0].publics@[j].x.rep() && shares@[i].publics@[
                    j].paillier_pk.n_val() == shares@[0].publics@[j].paillier_pk.n_val()
                &&& forall|i: int, j: int|
                    0 <= i < shares@.len() && 0 <= j < parties@.len()
                        ==> (#[trigger] shares@[i].publics@[j]).x.rep()
                        == crate::group::point_of(shares@[j].secret.secret_share.val())
            },
            Err(_) => true,
        },
{
    let n = parties.len();
    let mut secrets: Vec<Scalar> = Vec::new();
    let mut sks: Vec<PaillierSecretKey> = Vec::new();
    let mut publics: Vec<KeySharePublic> = Vec::new();
    let mut i: usize = 0;
    while i < n
        invariant
            rng.wf(),
            n == parties@.len(),
            0 <= i <= n,
            secrets@.len() == i,
            sks@.len() == i,
            publics@.len() == i,
            forall|k: int| 0 <= k < i ==> (#[trigger] secrets@[k]).wf(),
            forall|k: int|
                0 <= k < i ==> (#[trigger] sks@[k]).wf() && sks@[k].n_val() >= pow256(66),
            forall|k: int| 0 <= k < i ==> (#[trigger] publics@[k]).wf(),
            forall|k: int|
                0 <= k < i ==> (#[trigger] publics@[k]).paillier_pk.n_val() == sks@[k].n_val(),
            forall|k: int|
                0 <= k < i ==> (#[trigger] publics@[k]).x.rep() == crate::group::point_of(
                    secrets@[k].val(),
                ),
        decreases n - i,
    {
        let mut x = Scalar::random(rng);
        let mut big_x = x.mul_by_generator();
        let mut attempts: usize = 0;
        while big_x.encoded_len() != 33 && attempts < 100
            invariant
                rng.wf(),
                x.wf(),
                big_x.wf(),
                big_x.rep() == crate::group::point_of(x.val()),
                0 <= attempts <= 100,
            decreases 100 - attempts,
        {
            x = Scalar::random(rng);
            big_x = x.mul_by_generator();
            attempts += 1;
        }
        if big_x.encoded_len() != 33 {
            return Err(Error::MyFault(MyFault::InvalidState));
        }
        let sk = gen_paillier_sk(rng)?;
        let pk = sk.public_key();
        publics.push(KeySharePublic { x: big_x, paillier_pk: pk });
        secrets.push(x);
        sks.push(sk);
        i += 1;
    }
    let mut shares: Vec<KeyShare<I>> = Vec::new();
    let mut t: usize = 0;
    while t < n
        invariant
            n == parties@.len(),
            2 <= n <= 0xffffffff,
            secrets@.len() == n,
            sks@.len() == n,
            publics@.len() == n,
            forall|k: int| 0 <= k < n ==> (#[trigger] secrets@[k]).wf(),
            forall|k: int|
                0 <= k < n ==> (#[trigger] sks@[k]).wf() && sks@[k].n_val() >= pow256(66),
            forall|k: int| 0 <= k < n ==> (#[trigger] publics@[k]).wf(),
            forall|k: int|
                0 <= k < n ==> (#[trigger] publics@[k]).paillier_pk.n_val() == sks@[k].n_val(),
            forall|k: int|
                0 <= k < n ==> (#[trigger] publics@[k]).x.rep() == crate::group::point_of(
                    secrets@[k].val(),
                ),
            0 <= t <= n,
            shares@.len() == t,
            forall|k: int| 0 <= k < t ==> (#[trigger] shares@[k]).wf(),
            forall|k: int|
                0 <= k < t ==> (#[trigger] shares@[k]).index == k && shares@[k].id.id_spec()
                    == parties@[k].id_spec(),
            forall|k: int, j: int|
                0 <= k < t && 0 <= j < n ==> (#[trigger] shares@[k].publics@[j]).x.rep()
                    == publics@[j].x.rep() && shares@[k].publics@[j].paillier_pk.n_val()
                    == publics@[j].paillier_pk.n_val(),
            forall|k: int|
                0 <= k < t ==> (#[trigger] shares@[k]).secret.secret_share.val()
                    == secrets@[k].val(),
        decreases n - t,
    {
        let mut ids: Vec<I> = Vec::new();
        let mut u: usize = 0;
        while u < n
            invariant
                n == parties@.len(),
                0 <= u <= n,
                ids@.len() == u,
                forall|k: int|
                    0 <= k < u ==> (#[trigger] ids@[k]).id_spec() == parties@[k].id_spec(),
            decreases n - u,
        {
            ids.push(parties[u].dup_id());
            u += 1;
        }
        let mut pubs: Vec<KeySharePublic> = Vec::new();
        let mut v: usize = 0;
        while v < n
            invariant
                n == publics@.len(),
                forall|k: int| 0 <= k < n ==> (#[trigger] publics@[k]).wf(),
                0 <= v <= n,
                pubs@.len() == v,
                forall|k: int|
                    0 <= k < v ==> {
                        &&& (#[trigger] pubs@[k]).wf()
                        &&& pubs@[k].x.rep() == publics@[k].x.rep()
                        &&& pubs@[k].paillier_pk.n_val() == publics@[k].paillier_pk.n_val()
                    },
            decreases n - v,
        {
            let p = &publics[v];
            proof {
                assert(publics@[v as int].wf());
            }
            pubs.push(KeySharePublic { x: p.x.dup(), paillier_pk: p.paillier_pk.clone_key() });
            v += 1;
        }
        let share = KeyShare {
            id: parties[t].dup_id(),
            index: t,
            secret: KeyShareSecret {
                secret_share: secrets[t].dup(),
                paillier_sk: sks[t].clone_sk(),
            },
            ids,
            publics: pubs,
        };
        shares.push(share);
        t += 1;
    }
    Ok(shares)
}

} // verus!
