//! A deterministic byte generator built on SHA-256.
//!
//! Every protocol operation that consumes randomness takes one of these as
//! an argument; the caller decides how the seed is chosen. Two generators
//! with the same seed produce the same byte stream, which makes protocol
//! runs reproducible in tests; a production caller seeds it from operating
//! system entropy via [`os_seed`].

use crate::hashing::{sha256_of, Hasher};
use vstd::prelude::*;

verus! {

/// Relies on rand_core::OsRng (try_fill_bytes): 32 bytes of operating
/// system entropy, or `None` when the system source fails. The bytes
/// depend on the environment, so nothing but their length is stated.
#[verifier::external_body]
pub fn os_seed() -> (r: Option<Vec<u8>>)
    ensures
        match r {
            Some(b) => b@.len() == 32,
            None => true,
        },
{
    let mut buf = [0u8; 32];
    match rand_core::RngCore::try_fill_bytes(&mut rand_core::OsRng, &mut buf) {
        Ok(()) => Some(buf.to_vec()),
        Err(_) => None,
    }
}

/// A deterministic generator: 32 bytes of state, ratcheted by SHA-256.
pub struct Drbg {
    state: Vec<u8>,
}

impl Drbg {
    /// The current 32-byte state.
    pub closed spec fn view(&self) -> Seq<u8> {
        self.state@
    }

    pub closed spec fn wf(&self) -> bool {
        self.state@.len() == 32
    }

    /// Derives the initial state from an arbitrary seed.
    pub fn from_seed(seed: &Vec<u8>) -> (r: Drbg)
        requires
            seed@.len() < 0x100000000,
        ensures
            r.wf(),
    {
        let mut dst: Vec<u8> = Vec::new();
        dst.push(68);
        dst.push(114);
        dst.push(98);
        dst.push(103);
        let mut h = Hasher::new_with_dst(&dst);
        h.chain_bytes(seed);
        Drbg { state: h.finalize() }
    }

    /// Produces 32 fresh bytes and ratchets the state forward, so that
    /// earlier output cannot be recomputed from later state.
    pub fn next_block(&mut self) -> (r: Vec<u8>)
        requires
            old(self).wf(),
        ensures
            final (self).wf(),
            r@ == sha256_of(old(self)@ + seq![0u8]),
            final (self)@ == sha256_of(old(self)@ + seq![1u8]),
            r@.len() == 32,
    {
        let mut out_buf: Vec<u8> = self.state.clone();
        out_buf.push(0);
        let mut next_buf: Vec<u8> = self.state.clone();
        next_buf.push(1);
        proof {
            assert(out_buf@ =~= old(self)@ + seq![0u8]);
            assert(next_buf@ =~= old(self)@ + seq![1u8]);
        }
        let out = crate::hashing::sha256(&out_buf);
        self.state = crate::hashing::sha256(&next_buf);
        out
    }

    /// Produces exactly `n` bytes.
    pub fn fill(&mut self, n: usize) -> (r: Vec<u8>)
        requires
            old(self).wf(),
        ensures
            final (self).wf(),
            r@.len() == n,
    {
        let blocks = n / 32 + 1;
        let mut r: Vec<u8> = Vec::new();
        let mut j: usize = 0;
        while j < blocks
            invariant
                self.wf(),
                0 <= j <= blocks,
                r@.len() == j * 32,
            decreases blocks - j,
        {
            let block = self.next_block();
            let ghost r0 = r@.len();
            let mut i: usize = 0;
            while i < 32
                invariant
                    0 <= i <= 32,
                    block@.len() == 32,
                    self.wf(),
                    r@.len() == r0 + i,
                decreases 32 - i,
            {
                let b = block[i];
                r.push(b);
                i += 1;
            }
            j += 1;
        }
        proof {
            vstd::arithmetic::div_mod::lemma_fundamental_div_mod(n as int, 32);
            vstd::arithmetic::div_mod::lemma_mod_bound(n as int, 32);
        }
        r.truncate(n);
        r
    }
}

} // verus!
