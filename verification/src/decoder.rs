//! The world-variant decoder.
//!
//! World-form ngLog files obscure their text: each byte of the original text
//! is stored as a consecutive pair of bytes whose XOR is the original byte.
//! Decoding partitions the input into non-overlapping pairs, in order, and
//! emits one byte per pair. The scheme is fixed, documented behaviour of the
//! format; no other obfuscation variant is recognized.

use vstd::prelude::*;

use crate::errors::NgError;

verus! {

/// The byte sequence obtained by XOR-combining each consecutive
/// non-overlapping pair of `b`; a trailing odd byte is ignored.
pub open spec fn xor_pairs(b: Seq<u8>) -> Seq<u8> {
    Seq::new((b.len() / 2) as nat, |i: int| b[2 * i] ^ b[2 * i + 1])
}

/// The world-form encoding of `p` under the single key byte `k`: each plain
/// byte `b` becomes the pair `(b ^ k, k)`. Producing this form is not part of
/// the decoder's job; the definition exists to state what decoding undoes.
pub open spec fn xor_expand(p: Seq<u8>, k: u8) -> Seq<u8> {
    Seq::new(2 * p.len(), |i: int| if i % 2 == 0 { p[i / 2] ^ k } else { k })
}

/// Decoding is self-inverse against the pairwise XOR transform: expanding any
/// plain byte sequence with any key byte and decoding the result gives the
/// plain bytes back, because `a ^ k ^ k == a`.
pub proof fn lemma_xor_expand_involution(p: Seq<u8>, k: u8)
    ensures
        xor_pairs(xor_expand(p, k)) == p,
{
    let e = xor_expand(p, k);
    assert forall|i: int| 0 <= i < p.len() implies xor_pairs(e)[i] == p[i] by {
        let a = p[i];
        assert(e[2 * i] == a ^ k);
        assert(e[2 * i + 1] == k);
        assert((a ^ k) ^ k == a) by (bit_vector);
    }
    assert(xor_pairs(e) =~= p);
}

/// Reverse the world-variant obfuscation of `data`.
///
/// Succeeds exactly on even-length input, where it returns the pairwise XOR
/// of the bytes; an odd-length input cannot be paired and is rejected.
pub fn decode_world(data: &Vec<u8>) -> (r: Result<Vec<u8>, NgError>)
    ensures
        r is Ok <==> data@.len() % 2 == 0,
        r matches Ok(out) ==> out@ == xor_pairs(data@),
        r matches Err(e) ==> e == NgError::MalformedInput,
{
    if data.len() % 2 != 0 {
        return Err(NgError::MalformedInput);
    }
    let mut out: Vec<u8> = Vec::with_capacity(data.len() / 2);
    let mut i: usize = 0;
    while i < data.len()
        invariant
            data@.len() % 2 == 0,
            i % 2 == 0,
            i <= data@.len(),
            out@.len() == i / 2,
            forall|j: int| 0 <= j < out@.len() ==> out@[j] == data@[2 * j] ^ data@[2 * j + 1],
        decreases data@.len() - i,
    {
        assert(i + 1 < data@.len());
        let b = data[i] ^ data[i + 1];
        out.push(b);
        i = i + 2;
    }
    assert(out@ =~= xor_pairs(data@));
    Ok(out)
}

} // verus!
