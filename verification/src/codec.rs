//! Decoding of raw byte buffers into little-endian 16-bit samples.

use vstd::prelude::*;

use vstd::arithmetic::div_mod::lemma_fundamental_div_mod;
use vstd::arithmetic::div_mod::lemma_fundamental_div_mod_converse;

use crate::ChartError;

verus! {

/// The sample held by one little-endian byte pair.
pub open spec fn sample_of(lo: u8, hi: u8) -> u16 {
    (lo + 256 * hi) as u16
}

/// The samples of a byte buffer: each consecutive non-overlapping pair of
/// bytes, little endian. A trailing unpaired byte is dropped.
pub open spec fn decoded(b: Seq<u8>) -> Seq<u16> {
    Seq::new(b.len() / 2, |i: int| sample_of(b[2 * i], b[2 * i + 1]))
}

/// Decode a raw byte buffer into its little-endian 16-bit samples.
///
/// The buffer is truncated to its largest even-length prefix; the call
/// fails exactly when not even one complete sample is present.
pub fn decode(bytes: &Vec<u8>) -> (r: Result<Vec<u16>, ChartError>)
    ensures
        r is Ok <==> bytes@.len() >= 2,
        r matches Ok(v) ==> v@ == decoded(bytes@),
        r matches Err(e) ==> e == ChartError::DecodeError,
{
    if bytes.len() < 2 {
        return Err(ChartError::DecodeError);
    }
    let total: usize = bytes.len();
    let pairs: usize = total / 2;
    let mut samples: Vec<u16> = Vec::new();
    let mut i: usize = 0;
    while i < pairs
        invariant
            total == bytes@.len(),
            pairs == bytes@.len() / 2,
            2 * pairs <= total,
            i <= pairs,
            samples@.len() == i,
            forall|j: int| 0 <= j < i ==> samples@[j] == decoded(bytes@)[j],
        decreases pairs - i,
    {
        let lo = bytes[2 * i];
        let hi = bytes[2 * i + 1];
        samples.push(lo as u16 + (hi as u16) * 256);
        i = i + 1;
    }
    proof {
        assert(samples@ =~= decoded(bytes@));
    }
    Ok(samples)
}

/// The two little-endian bytes of each sample, concatenated in order.
pub open spec fn encoded(v: Seq<u16>) -> Seq<u8> {
    Seq::new(
        2 * v.len(),
        |i: int| if i % 2 == 0 {
            (v[i / 2] % 256) as u8
        } else {
            (v[i / 2] / 256) as u8
        },
    )
}

/// Round trip: encoding any sample sequence as little-endian byte pairs
/// and decoding the result yields the sequence unchanged.
pub proof fn lemma_decode_roundtrip(v: Seq<u16>)
    ensures
        decoded(encoded(v)) == v,
{
    let b = encoded(v);
    assert(b.len() == 2 * v.len());
    assert(b.len() / 2 == v.len()) by {
        lemma_fundamental_div_mod_converse(b.len() as int, 2, v.len() as int, 0);
    }
    assert forall|i: int| 0 <= i < v.len() implies decoded(b)[i] == v[i] by {
        lemma_fundamental_div_mod_converse(2 * i, 2, i, 0);
        lemma_fundamental_div_mod_converse(2 * i + 1, 2, i, 1);
        assert(b[2 * i] == (v[i] % 256) as u8);
        assert(b[2 * i + 1] == (v[i] / 256) as u8);
        lemma_fundamental_div_mod(v[i] as int, 256);
    }
    assert(decoded(encoded(v)) =~= v);
}

/// Truncation: decoding a buffer of odd length yields the very samples of
/// its even-length prefix, the trailing byte never being read. Neither
/// buffer holds a complete sample exactly when the other does not.
pub proof fn lemma_decode_truncation(b: Seq<u8>)
    requires
        b.len() % 2 == 1,
    ensures
        decoded(b) == decoded(b.take(b.len() - 1)),
        b.len() < 2 <==> b.take(b.len() - 1).len() < 2,
{
    let t = b.take(b.len() - 1);
    assert(b.len() == 2 * (b.len() / 2) + 1) by {
        lemma_fundamental_div_mod(b.len() as int, 2);
    }
    assert(t.len() / 2 == b.len() / 2) by {
        lemma_fundamental_div_mod_converse(t.len() as int, 2, b.len() as int / 2, 0);
    }
    assert forall|i: int| 0 <= i < decoded(b).len() implies decoded(t)[i] == decoded(b)[i] by {
        assert(2 * i + 1 < t.len());
    }
    assert(decoded(b) =~= decoded(t));
}

} // verus!
