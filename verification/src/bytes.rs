//! Big-endian byte strings as natural numbers.
//!
//! Curve scalars, Paillier moduli and ciphertexts are all carried as
//! big-endian byte vectors; `be_val` is the single notion of "the number a
//! byte string denotes" that every contract in the crate speaks of.

use vstd::arithmetic::mul::lemma_mul_inequality;
use vstd::arithmetic::power::{lemma_pow_adds, lemma_pow_positive, pow};
use vstd::prelude::*;

verus! {

/// The natural number denoted by a big-endian byte string.
pub open spec fn be_val(s: Seq<u8>) -> nat
    decreases s.len(),
{
    if s.len() == 0 {
        0
    } else {
        (be_val(s.drop_last()) * 256 + s.last()) as nat
    }
}

/// 256 raised to `n`: the weight of a byte `n` positions from the end.
pub open spec fn pow256(n: nat) -> int {
    pow(256, n)
}

pub proof fn lemma_pow256_positive(n: nat)
    ensures
        pow256(n) > 0,
{
    lemma_pow_positive(256, n);
}

/// A byte string of all zeroes denotes zero.
pub proof fn lemma_be_val_zeroes(s: Seq<u8>)
    requires
        forall|i: int| 0 <= i < s.len() ==> s[i] == 0,
    ensures
        be_val(s) == 0,
    decreases s.len(),
{
    if s.len() > 0 {
        lemma_be_val_zeroes(s.drop_last());
    }
}

/// The value of a byte string is below 256 to its length.
pub proof fn lemma_be_val_bound(s: Seq<u8>)
    ensures
        be_val(s) < pow256(s.len()),
    decreases s.len(),
{
    if s.len() == 0 {
        assert(pow256(0) == 1) by {
            reveal(pow);
        }
    } else {
        lemma_be_val_bound(s.drop_last());
        lemma_pow256_positive((s.len() - 1) as nat);
        assert(pow256(s.len()) == 256 * pow256((s.len() - 1) as nat)) by {
            reveal(pow);
        }
        assert(be_val(s.drop_last()) * 256 <= (pow256((s.len() - 1) as nat) - 1) * 256) by {
            lemma_mul_inequality(be_val(s.drop_last()) as int, pow256((s.len() - 1) as nat) - 1, 256);
        }
    }
}

/// Splitting a byte string at position `k` splits its value positionally.
pub proof fn lemma_be_val_split(s: Seq<u8>, k: int)
    requires
        0 <= k <= s.len(),
    ensures
        be_val(s) == be_val(s.take(k)) * pow256((s.len() - k) as nat) + be_val(s.skip(k)),
    decreases s.len() - k,
{
    if k == s.len() {
        assert(s.take(k) =~= s);
        assert(s.skip(k) =~= Seq::<u8>::empty());
        assert(pow256(0) == 1) by {
            reveal(pow);
        }
    } else {
        let d = s.drop_last();
        lemma_be_val_split(d, k);
        assert(d.take(k) =~= s.take(k));
        assert(d.skip(k) =~= s.skip(k).drop_last());
        let m = (s.len() - k - 1) as nat;
        assert(pow256(m + 1) == pow256(m) * 256) by {
            lemma_pow_adds(256, m, 1);
            reveal(pow);
        }
        assert(be_val(s) == (be_val(s.take(k)) * pow256(m) + be_val(s.skip(k).drop_last())) * 256
            + s.last());
        assert(s.skip(k).last() == s.last());
        assert(be_val(s.skip(k)) == be_val(s.skip(k).drop_last()) * 256 + s.last());
        assert((be_val(s.take(k)) * pow256(m)) * 256 == be_val(s.take(k)) * (pow256(m) * 256)) by {
            vstd::arithmetic::mul::lemma_mul_is_associative(
                be_val(s.take(k)) as int,
                pow256(m) as int,
                256,
            );
        }
    }
}

/// Prepending zeroes does not change the denoted value.
pub proof fn lemma_be_val_zero_extend(s: Seq<u8>, k: int)
    requires
        0 <= k <= s.len(),
        forall|i: int| 0 <= i < k ==> s[i] == 0,
    ensures
        be_val(s) == be_val(s.skip(k)),
{
    lemma_be_val_split(s, k);
    lemma_be_val_zeroes(s.take(k));
}

/// Taking one more byte appends it at the low end of the value.
pub proof fn lemma_be_val_take_step(s: Seq<u8>, i: int)
    requires
        0 <= i < s.len(),
    ensures
        be_val(s.take(i + 1)) == be_val(s.take(i)) * 256 + s[i],
{
    assert(s.take(i + 1).drop_last() =~= s.take(i));
    assert(s.take(i + 1).last() == s[i]);
}

/// Byte-string equality, decided byte by byte.
pub fn bytes_eq(a: &Vec<u8>, b: &Vec<u8>) -> (r: bool)
    ensures
        r == (a@ == b@),
{
    if a.len() != b.len() {
        assert(a@ !~= b@);
        return false;
    }
    let n = a.len();
    let mut i: usize = 0;
    while i < n
        invariant
            n == a.len() == b.len(),
            0 <= i <= n,
            forall|j: int| 0 <= j < i ==> a@[j] == b@[j],
        decreases n - i,
    {
        if a[i] != b[i] {
            assert(a@ !~= b@);
            return false;
        }
        i += 1;
    }
    assert(a@ =~= b@);
    true
}

/// Strictly-less comparison of two equal-length big-endian byte strings:
/// lexicographic order on the bytes is value order.
pub fn be_lt(a: &Vec<u8>, b: &Vec<u8>) -> (r: bool)
    requires
        a@.len() == b@.len(),
    ensures
        r == (be_val(a@) < be_val(b@)),
{
    let n = a.len();
    let mut i: usize = 0;
    while i < n
        invariant
            n == a.len() == b.len(),
            0 <= i <= n,
            a@.take(i as int) =~= b@.take(i as int),
        decreases n - i,
    {
        let x = a[i];
        let y = b[i];
        if x < y {
            proof {
                lemma_be_lt_decided(a@, b@, i as int);
            }
            return true;
        }
        if x > y {
            proof {
                lemma_be_lt_decided(b@, a@, i as int);
            }
            return false;
        }
        assert(a@.take(i + 1) =~= b@.take(i + 1));
        i += 1;
    }
    proof {
        assert(a@ =~= a@.take(n as int));
        assert(b@ =~= b@.take(n as int));
    }
    false
}

/// If two equal-length strings agree before `i` and `a[i] < b[i]`, then
/// `a` denotes the smaller value.
proof fn lemma_be_lt_decided(a: Seq<u8>, b: Seq<u8>, i: int)
    requires
        a.len() == b.len(),
        0 <= i < a.len(),
        a.take(i) == b.take(i),
        a[i] < b[i],
    ensures
        be_val(a) < be_val(b),
{
    let rest = (a.len() - i - 1) as nat;
    lemma_be_val_split(a, i + 1);
    lemma_be_val_split(b, i + 1);
    lemma_be_val_take_step(a, i);
    lemma_be_val_take_step(b, i);
    lemma_be_val_bound(a.skip(i + 1));
    lemma_pow256_positive(rest);
    let ta = be_val(a.take(i + 1)) as int;
    let tb = be_val(b.take(i + 1)) as int;
    assert(ta + 1 <= tb);
    assert((ta + 1) * pow256(rest) <= tb * pow256(rest)) by {
        lemma_mul_inequality(ta + 1, tb, pow256(rest));
    }
    assert(ta * pow256(rest) + pow256(rest) == (ta + 1) * pow256(rest)) by {
        vstd::arithmetic::mul::lemma_mul_is_distributive_add_other_way(pow256(rest), ta, 1);
    }
}

/// Left-pads a byte string with zeroes to the requested length,
/// preserving the denoted value.
pub fn pad_be(v: &Vec<u8>, len: usize) -> (r: Vec<u8>)
    requires
        v@.len() <= len,
    ensures
        r@.len() == len,
        be_val(r@) == be_val(v@),
{
    let mut r: Vec<u8> = Vec::new();
    let fill = len - v.len();
    let mut i: usize = 0;
    while i < fill
        invariant
            0 <= i <= fill,
            r@.len() == i,
            forall|j: int| 0 <= j < i ==> r@[j] == 0,
        decreases fill - i,
    {
        r.push(0);
        i += 1;
    }
    let mut k: usize = 0;
    while k < v.len()
        invariant
            v@.len() <= len,
            fill == len - v@.len(),
            0 <= k <= v@.len(),
            r@.len() == fill + k,
            forall|j: int| 0 <= j < fill ==> r@[j] == 0,
            r@.skip(fill as int) =~= v@.take(k as int),
        decreases v@.len() - k,
    {
        let x = v[k];
        r.push(x);
        assert(r@.skip(fill as int) =~= v@.take(k + 1));
        k += 1;
    }
    proof {
        assert(r@.skip(fill as int) =~= v@);
        lemma_be_val_zero_extend(r@, fill as int);
    }
    r
}

/// A nonzero byte anywhere gives the string a positive value, with a
/// positional lower bound.
pub proof fn lemma_be_val_lower(s: Seq<u8>, i: int)
    requires
        0 <= i < s.len(),
        s[i] >= 1,
    ensures
        be_val(s) >= pow256((s.len() - i - 1) as nat),
{
    let rest = (s.len() - i - 1) as nat;
    lemma_be_val_split(s, i + 1);
    lemma_be_val_take_step(s, i);
    lemma_pow256_positive(rest);
    assert(be_val(s.take(i + 1)) >= 1);
    assert(be_val(s.take(i + 1)) * pow256(rest) >= 1 * pow256(rest)) by {
        lemma_mul_inequality(1, be_val(s.take(i + 1)) as int, pow256(rest));
    }
}

/// Whether the denoted value is zero, decided byte by byte.
pub fn is_zero_bytes(v: &Vec<u8>) -> (r: bool)
    ensures
        r == (be_val(v@) == 0),
{
    let n = v.len();
    let mut i: usize = 0;
    while i < n
        invariant
            n == v.len(),
            0 <= i <= n,
            forall|j: int| 0 <= j < i ==> v@[j] == 0,
        decreases n - i,
    {
        if v[i] != 0 {
            proof {
                lemma_be_val_lower(v@, i as int);
                lemma_pow256_positive((v@.len() - i - 1) as nat);
            }
            return false;
        }
        i += 1;
    }
    proof {
        lemma_be_val_zeroes(v@);
    }
    true
}

/// Whether the denoted value lies below `256^len`, decided byte by byte.
pub fn val_below_pow256(v: &Vec<u8>, len: usize) -> (r: bool)
    ensures
        r == (be_val(v@) < pow256(len as nat)),
{
    if v.len() <= len {
        proof {
            lemma_be_val_bound(v@);
            vstd::arithmetic::power::lemma_pow_increases(256, v@.len(), len as nat);
        }
        return true;
    }
    let excess = v.len() - len;
    let mut i: usize = 0;
    while i < excess
        invariant
            v@.len() > len,
            excess == v@.len() - len,
            0 <= i <= excess,
            forall|j: int| 0 <= j < i ==> v@[j] == 0,
        decreases excess - i,
    {
        if v[i] != 0 {
            proof {
                lemma_be_val_lower(v@, i as int);
                vstd::arithmetic::power::lemma_pow_increases(
                    256,
                    len as nat,
                    (v@.len() - i - 1) as nat,
                );
            }
            return false;
        }
        i += 1;
    }
    proof {
        lemma_be_val_zero_extend(v@, excess as int);
        lemma_be_val_bound(v@.skip(excess as int));
    }
    true
}

/// A one-byte vector with the given value.
pub fn byte_vec1(x: u8) -> (r: Vec<u8>)
    ensures
        r@.len() == 1,
        r@ == seq![x],
        be_val(r@) == x,
{
    let mut r: Vec<u8> = Vec::new();
    r.push(x);
    proof {
        assert(r@ =~= seq![x]);
        assert(r@.drop_last() =~= Seq::<u8>::empty());
        assert(be_val(Seq::<u8>::empty()) == 0);
    }
    r
}

/// The square of a value below `256^l` is below `256^(2l)`.
pub proof fn lemma_sq_bound(v: nat, l: nat)
    requires
        v < pow256(l),
    ensures
        v * v < pow256(2 * l),
{
    lemma_pow256_positive(l);
    assert(pow256(l) * pow256(l) == pow256(2 * l)) by {
        lemma_pow_adds(256, l, l);
    }
    assert(v * v < pow256(l) * pow256(l)) by (nonlinear_arith)
        requires
            v < pow256(l),
            pow256(l) > 0,
    {}
}

} // verus!
