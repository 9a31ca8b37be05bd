//! The wire format: length-prefixed chunks.
//!
//! Every protocol message is a fixed number of chunks, each a 4-byte
//! big-endian length followed by the bytes. `chunks_of` is the
//! specification-level parser; the executable encoder and splitter are
//! verified against it, and the per-message round-trip laws reduce to
//! [`lemma_chunks_step`].

use crate::bytes::be_val;
use crate::hashing::{be_of, framed, lemma_be_of_val, u32_be_bytes, u32_from_be};
use vstd::prelude::*;

verus! {

/// Parses a byte string as a sequence of length-prefixed chunks; `None`
/// when the string is not exactly a whole number of well-formed chunks.
pub open spec fn chunks_of(s: Seq<u8>) -> Option<Seq<Seq<u8>>>
    decreases s.len(),
{
    if s.len() == 0 {
        Some(Seq::empty())
    } else if s.len() < 4 {
        None
    } else {
        let l = be_val(s.take(4)) as int;
        if 4 + l > s.len() {
            None
        } else {
            match chunks_of(s.skip(4 + l)) {
                Some(rest) => Some(seq![s.subrange(4, 4 + l)].add(rest)),
                None => None,
            }
        }
    }
}

/// Prepends parsed chunks to a parse result.
pub open spec fn with_prefix(pre: Seq<Seq<u8>>, rest: Option<Seq<Seq<u8>>>) -> Option<
    Seq<Seq<u8>>,
> {
    match rest {
        Some(cs) => Some(pre + cs),
        None => None,
    }
}

/// Parsing one framed chunk followed by anything parses to the chunk
/// followed by the parse of the rest.
pub proof fn lemma_chunks_step(b: Seq<u8>, rest: Seq<u8>)
    requires
        b.len() < 0x100000000,
    ensures
        chunks_of(framed(b) + rest) == with_prefix(seq![b], chunks_of(rest)),
{
    let s = framed(b) + rest;
    assert(crate::bytes::pow256(4) == 0x100000000) by {
        reveal_with_fuel(vstd::arithmetic::power::pow, 5);
    }
    lemma_be_of_val(b.len(), 4);
    assert(s.take(4) =~= be_of(b.len(), 4));
    assert(s.len() == 4 + b.len() + rest.len());
    assert(s.subrange(4, 4 + b.len() as int) =~= b);
    assert(s.skip(4 + b.len() as int) =~= rest);
    if chunks_of(rest) is Some {
        assert(chunks_of(s) == Some(
            seq![s.subrange(4, 4 + b.len() as int)].add(chunks_of(rest).unwrap()),
        ));
        assert(seq![s.subrange(4, 4 + b.len() as int)].add(chunks_of(rest).unwrap()) =~= seq![
            b,
        ] + chunks_of(rest).unwrap());
    }
}

/// Appends one length-prefixed chunk to the output buffer.
pub fn put_chunk(out: &mut Vec<u8>, data: &Vec<u8>)
    requires
        data@.len() < 0x100000000,
    ensures
        final (out)@ == old(out)@ + framed(data@),
{
    let len_bytes = u32_be_bytes(data.len() as u32);
    let mut i: usize = 0;
    while i < 4
        invariant
            0 <= i <= 4,
            len_bytes@.len() == 4,
            out@ == old(out)@ + len_bytes@.take(i as int),
        decreases 4 - i,
    {
        let b = len_bytes[i];
        out.push(b);
        assert(out@ =~= old(out)@ + len_bytes@.take(i + 1));
        i += 1;
    }
    let mut k: usize = 0;
    while k < data.len()
        invariant
            0 <= k <= data@.len(),
            len_bytes@.len() == 4,
            out@ == old(out)@ + len_bytes@ + data@.take(k as int),
        decreases data@.len() - k,
    {
        let b = data[k];
        out.push(b);
        assert(out@ =~= old(out)@ + len_bytes@ + data@.take(k + 1));
        k += 1;
    }
    proof {
        assert(len_bytes@.take(4) =~= len_bytes@);
        assert(data@.take(data@.len() as int) =~= data@);
        assert(out@ =~= old(out)@ + framed(data@));
    }
}

/// Copies `buf[start..end]` into a fresh vector.
pub fn copy_range(buf: &Vec<u8>, start: usize, end: usize) -> (r: Vec<u8>)
    requires
        start <= end <= buf@.len(),
    ensures
        r@ == buf@.subrange(start as int, end as int),
{
    let mut r: Vec<u8> = Vec::new();
    let mut i: usize = start;
    while i < end
        invariant
            start <= i <= end <= buf@.len(),
            r@ == buf@.subrange(start as int, i as int),
        decreases end - i,
    {
        let b = buf[i];
        r.push(b);
        assert(r@ =~= buf@.subrange(start as int, i + 1));
        i += 1;
    }
    r
}

/// Splits a buffer into its chunks; `None` exactly when the buffer is not
/// a whole number of well-formed chunks.
pub fn split_chunks(buf: &Vec<u8>) -> (r: Option<Vec<Vec<u8>>>)
    ensures
        match r {
            Some(v) => chunks_of(buf@) == Some(v@.map_values(|c: Vec<u8>| c@)),
            None => chunks_of(buf@) is None,
        },
{
    let total = buf.len();
    let mut pos: usize = 0;
    let mut done: Vec<Vec<u8>> = Vec::new();
    proof {
        assert(buf@.skip(0) =~= buf@);
        assert(done@.map_values(|c: Vec<u8>| c@) =~= Seq::<Seq<u8>>::empty());
    }
    while pos < total
        invariant
            total == buf@.len(),
            0 <= pos <= total,
            with_prefix(done@.map_values(|c: Vec<u8>| c@), chunks_of(buf@.skip(pos as int)))
                == chunks_of(buf@),
        decreases total - pos,
    {
        let ghost s = buf@.skip(pos as int);
        if total - pos < 4 {
            proof {
                assert(chunks_of(s) is None);
            }
            return None;
        }
        let l32 = u32_from_be(buf[pos], buf[pos + 1], buf[pos + 2], buf[pos + 3]);
        let l = l32 as usize;
        proof {
            assert(s.take(4) =~= seq![
                buf@[pos as int],
                buf@[pos as int + 1],
                buf@[pos as int + 2],
                buf@[pos as int + 3],
            ]);
        }
        if l > total - pos - 4 {
            proof {
                assert(chunks_of(s) is None);
            }
            return None;
        }
        let chunk = copy_range(buf, pos + 4, pos + 4 + l);
        let new_pos = pos + 4 + l;
        proof {
            assert(chunk@ =~= s.subrange(4, 4 + l as int));
            assert(s.skip(4 + l as int) =~= buf@.skip(new_pos as int));
        }
        let ghost done_pre = done@.map_values(|c: Vec<u8>| c@);
        done.push(chunk);
        pos = new_pos;
        proof {
            assert(done@.map_values(|c: Vec<u8>| c@) =~= done_pre.push(chunk@));
            assert(chunks_of(s) == with_prefix(seq![chunk@], chunks_of(buf@.skip(pos as int))));
            if chunks_of(buf@.skip(pos as int)) is Some {
                assert(done_pre.push(chunk@) + chunks_of(buf@.skip(pos as int)).unwrap() =~= done_pre
                    + (seq![chunk@] + chunks_of(buf@.skip(pos as int)).unwrap()));
            }
        }
    }
    proof {
        assert(buf@.skip(total as int) =~= Seq::<u8>::empty());
        assert(done@.map_values(|c: Vec<u8>| c@) + Seq::<Seq<u8>>::empty() =~= done@.map_values(
            |c: Vec<u8>| c@,
        ));
    }
    Some(done)
}

/// The concatenation of the framed forms of a list of chunks: the full
/// encoding of a message with those fields.
pub open spec fn concat_framed(cs: Seq<Seq<u8>>) -> Seq<u8>
    decreases cs.len(),
{
    if cs.len() == 0 {
        Seq::empty()
    } else {
        framed(cs[0]) + concat_framed(cs.skip(1))
    }
}

/// Parsing the encoding of a chunk list recovers exactly the list:
/// serialize-then-parse is the identity at the chunk level.
pub proof fn lemma_chunks_concat(cs: Seq<Seq<u8>>)
    requires
        forall|i: int| 0 <= i < cs.len() ==> (#[trigger] cs[i]).len() < 0x100000000,
    ensures
        chunks_of(concat_framed(cs)) == Some(cs),
    decreases cs.len(),
{
    if cs.len() == 0 {
        assert(concat_framed(cs) =~= Seq::<u8>::empty());
        assert(chunks_of(concat_framed(cs)) == Some(Seq::<Seq<u8>>::empty()));
        assert(cs =~= Seq::<Seq<u8>>::empty());
    } else {
        lemma_chunks_concat(cs.skip(1));
        lemma_chunks_step(cs[0], concat_framed(cs.skip(1)));
        assert(seq![cs[0]] + cs.skip(1) =~= cs);
    }
}

/// One definitional unfolding of `concat_framed`.
pub proof fn lemma_concat_framed_step(cs: Seq<Seq<u8>>)
    requires
        cs.len() > 0,
    ensures
        concat_framed(cs) == framed(cs[0]) + concat_framed(cs.skip(1)),
{
}

/// Every chunk recovered by the parser fits a 4-byte length field.
pub proof fn lemma_chunks_bounded(s: Seq<u8>)
    requires
        chunks_of(s) is Some,
    ensures
        forall|i: int|
            0 <= i < chunks_of(s).unwrap().len() ==> (#[trigger] chunks_of(s).unwrap()[i]).len()
                < 0x100000000,
    decreases s.len(),
{
    if s.len() == 0 {
    } else {
        let l = be_val(s.take(4)) as int;
        assert(crate::bytes::pow256(4) == 0x100000000) by {
            reveal_with_fuel(vstd::arithmetic::power::pow, 5);
        }
        crate::bytes::lemma_be_val_bound(s.take(4));
        lemma_chunks_bounded(s.skip(4 + l));
        assert forall|i: int| 0 <= i < chunks_of(s).unwrap().len() implies (#[trigger] chunks_of(
            s,
        ).unwrap()[i]).len() < 0x100000000 by {
            if i == 0 {
                assert(chunks_of(s).unwrap()[0] == s.subrange(4, 4 + l));
            } else {
                assert(chunks_of(s).unwrap()[i] == chunks_of(s.skip(4 + l)).unwrap()[i - 1]);
            }
        }
    }
}

/// Encodes a list of fields as consecutive length-prefixed chunks.
pub fn encode_chunks(fields: &Vec<Vec<u8>>) -> (r: Vec<u8>)
    requires
        forall|i: int| 0 <= i < fields@.len() ==> (#[trigger] fields@[i])@.len() < 0x100000000,
    ensures
        r@ == concat_framed(fields@.map_values(|c: Vec<u8>| c@)),
{
    let ghost cs = fields@.map_values(|c: Vec<u8>| c@);
    let mut r: Vec<u8> = Vec::new();
    let mut i: usize = 0;
    proof {
        assert(cs.skip(0) =~= cs);
    }
    while i < fields.len()
        invariant
            cs == fields@.map_values(|c: Vec<u8>| c@),
            forall|k: int| 0 <= k < fields@.len() ==> (#[trigger] fields@[k])@.len() < 0x100000000,
            0 <= i <= fields@.len(),
            r@ + concat_framed(cs.skip(i as int)) == concat_framed(cs),
        decreases fields@.len() - i,
    {
        let ghost pre = r@;
        put_chunk(&mut r, &fields[i]);
        proof {
            lemma_concat_framed_step(cs.skip(i as int));
            assert(cs.skip(i as int)[0] == cs[i as int]);
            assert(cs.skip(i as int).skip(1) =~= cs.skip(i + 1));
            assert((pre + framed(cs[i as int])) + concat_framed(cs.skip(i + 1)) =~= pre + (framed(
                cs[i as int],
            ) + concat_framed(cs.skip(i + 1))));
        }
        i += 1;
    }
    proof {
        assert(cs.skip(fields@.len() as int) =~= Seq::<Seq<u8>>::empty());
        assert(r@ + Seq::<u8>::empty() =~= r@);
    }
    r
}

} // verus!
