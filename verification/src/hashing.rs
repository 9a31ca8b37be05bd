//! Hashing with explicit, deterministic framing.
//!
//! Every hash in the protocol is a single SHA-256 digest of an explicitly
//! framed buffer: a domain-separation tag followed by length-prefixed
//! chunks. The buffer construction is verified; only the compression
//! function itself is delegated to the `sha2` crate.

use crate::bytes::be_val;
use sha2::{Digest, Sha256};
use vstd::prelude::*;

verus! {

/// The SHA-256 digest of a byte string; a function of the bytes alone.
pub uninterp spec fn sha256_of(s: Seq<u8>) -> Seq<u8>;

/// Relies on sha2::Sha256: a 32-byte digest that depends on the input
/// bytes alone.
#[verifier::external_body]
pub fn sha256(data: &Vec<u8>) -> (r: Vec<u8>)
    ensures
        r@ == sha256_of(data@),
        r@.len() == 32,
{
    let mut h = Sha256::new();
    h.update(data.as_slice());
    h.finalize().to_vec()
}

/// The big-endian byte string of `n` in `len` bytes (most significant first).
pub open spec fn be_of(n: nat, len: nat) -> Seq<u8>
    decreases len,
{
    if len == 0 {
        Seq::empty()
    } else {
        be_of(n / 256, (len - 1) as nat).push((n % 256) as u8)
    }
}

/// `be_of` is a right inverse of `be_val` on values that fit.
pub proof fn lemma_be_of_val(n: nat, len: nat)
    requires
        n < crate::bytes::pow256(len),
    ensures
        be_val(be_of(n, len)) == n,
        be_of(n, len).len() == len,
    decreases len,
{
    if len == 0 {
        assert(crate::bytes::pow256(0) == 1) by {
            vstd::arithmetic::power::lemma_pow0(256);
        }
    } else {
        assert(crate::bytes::pow256(len) == crate::bytes::pow256((len - 1) as nat) * 256) by {
            vstd::arithmetic::power::lemma_pow_adds(256, (len - 1) as nat, 1);
            vstd::arithmetic::power::lemma_pow1(256);
        }
        assert(n / 256 < crate::bytes::pow256((len - 1) as nat)) by {
            vstd::arithmetic::div_mod::lemma_div_is_ordered(
                n as int,
                crate::bytes::pow256((len - 1) as nat) * 256 - 1,
                256,
            );
            vstd::arithmetic::div_mod::lemma_div_multiples_vanish_fancy(
                crate::bytes::pow256((len - 1) as nat) - 1,
                255,
                256,
            );
        }
        lemma_be_of_val(n / 256, (len - 1) as nat);
        let s = be_of(n, len);
        assert(s.drop_last() =~= be_of(n / 256, (len - 1) as nat));
        assert(s.last() == (n % 256) as u8);
        vstd::arithmetic::div_mod::lemma_fundamental_div_mod(n as int, 256);
    }
}

/// The 4-byte big-endian encoding of a `u32`, as executable code.
pub fn u32_be_bytes(n: u32) -> (r: Vec<u8>)
    ensures
        r@ == be_of(n as nat, 4),
        r@.len() == 4,
{
    let mut r: Vec<u8> = Vec::new();
    r.push(((n / 0x1000000) % 0x100) as u8);
    r.push(((n / 0x10000) % 0x100) as u8);
    r.push(((n / 0x100) % 0x100) as u8);
    r.push((n % 0x100) as u8);
    proof {
        let m = n as nat;
        assert(m / 256 / 256 == m / 0x10000) by {
            vstd::arithmetic::div_mod::lemma_div_denominator(m as int, 256, 256);
        }
        assert(m / 0x10000 / 256 == m / 0x1000000) by {
            vstd::arithmetic::div_mod::lemma_div_denominator(m as int, 0x10000, 256);
        }
        assert(m / 0x1000000 / 256 == 0) by {
            vstd::arithmetic::div_mod::lemma_div_denominator(m as int, 0x1000000, 256);
            assert(m / 0x100000000 == 0) by {
                vstd::arithmetic::div_mod::lemma_basic_div(m as int, 0x100000000);
            }
        }
        assert(r@ =~= be_of(m, 4)) by {
            reveal_with_fuel(be_of, 5);
        }
    }
    r
}

/// Reads a 4-byte big-endian length field.
pub fn u32_from_be(b0: u8, b1: u8, b2: u8, b3: u8) -> (r: u32)
    ensures
        r as nat == be_val(seq![b0, b1, b2, b3]),
{
    let r: u32 = (b0 as u32) * 0x1000000 + (b1 as u32) * 0x10000 + (b2 as u32) * 0x100 + (
    b3 as u32);
    proof {
        let s = seq![b0, b1, b2, b3];
        assert(s.drop_last() =~= seq![b0, b1, b2]);
        assert(seq![b0, b1, b2].drop_last() =~= seq![b0, b1]);
        assert(seq![b0, b1].drop_last() =~= seq![b0]);
        assert(seq![b0].drop_last() =~= Seq::<u8>::empty());
        assert(be_val(Seq::<u8>::empty()) == 0);
        assert(be_val(seq![b0]) == b0);
        assert(be_val(seq![b0, b1]) == b0 * 256 + b1);
        assert(be_val(seq![b0, b1, b2]) == (b0 * 256 + b1) * 256 + b2);
        assert(be_val(s) == ((b0 * 256 + b1) * 256 + b2) * 256 + b3);
    }
    r
}

/// The framing of one chunk: a 4-byte big-endian length, then the bytes.
pub open spec fn framed(chunk: Seq<u8>) -> Seq<u8> {
    be_of(chunk.len(), 4) + chunk
}

/// An incremental hasher over an explicitly framed buffer.
///
/// `finalize` hashes the whole buffer once; the buffer contents are pinned
/// exactly by the contracts, so two transcripts agree if and only if the
/// same chunks were chained in the same order.
pub struct Hasher {
    buf: Vec<u8>,
}

impl Hasher {
    /// The bytes accumulated so far.
    pub closed spec fn view(&self) -> Seq<u8> {
        self.buf@
    }

    /// Starts a transcript with a domain-separation tag as its first chunk.
    pub fn new_with_dst(dst: &Vec<u8>) -> (r: Hasher)
        requires
            dst@.len() < 0x100000000,
        ensures
            r@ == framed(dst@),
    {
        let mut h = Hasher { buf: Vec::new() };
        h.chain_bytes(dst);
        h
    }

    /// Appends one length-prefixed chunk.
    pub fn chain_bytes(&mut self, data: &Vec<u8>)
        requires
            data@.len() < 0x100000000,
        ensures
            final (self)@ == old(self)@ + framed(data@),
    {
        let len_bytes = u32_be_bytes(data.len() as u32);
        let mut i: usize = 0;
        while i < 4
            invariant
                0 <= i <= 4,
                len_bytes@.len() == 4,
                self.buf@ == old(self).buf@ + len_bytes@.take(i as int),
            decreases 4 - i,
        {
            let b = len_bytes[i];
            self.buf.push(b);
            assert(self.buf@ =~= old(self).buf@ + len_bytes@.take(i + 1));
            i += 1;
        }
        let mut k: usize = 0;
        while k < data.len()
            invariant
                0 <= k <= data@.len(),
                len_bytes@.len() == 4,
                self.buf@ == old(self).buf@ + len_bytes@ + data@.take(k as int),
            decreases data@.len() - k,
        {
            let b = data[k];
            self.buf.push(b);
            assert(self.buf@ =~= old(self).buf@ + len_bytes@ + data@.take(k + 1));
            k += 1;
        }
        proof {
            assert(len_bytes@.take(4) =~= len_bytes@);
            assert(data@.take(data@.len() as int) =~= data@);
            assert(self.buf@ =~= old(self).buf@ + framed(data@));
        }
    }

    /// Appends a single raw byte (used for fixed-position tags).
    pub fn chain_u8(&mut self, b: u8)
        ensures
            final (self)@ == old(self)@ + seq![b],
    {
        self.buf.push(b);
        assert(self.buf@ =~= old(self).buf@ + seq![b]);
    }

    /// Hashes the framed transcript.
    pub fn finalize(self) -> (r: Vec<u8>)
        ensures
            r@ == sha256_of(self@),
            r@.len() == 32,
    {
        sha256(&self.buf)
    }
}

} // verus!
