//! ASCII case folding of whole blocks.
use vstd::prelude::*;

verus! {

/// ASCII lowercase of one byte: 'A'..='Z' gain the 0x20 bit, every other
/// byte is left as it is.
pub open spec fn ascii_lower(b: u8) -> u8 {
    if 65 <= b <= 90 {
        (b + 32) as u8
    } else {
        b
    }
}

/// ASCII lowercase of every byte of `v`.
pub open spec fn lowered(v: Seq<u8>) -> Seq<u8> {
    Seq::new(v.len(), |i: int| ascii_lower(v[i]))
}

/// Range check and bitwise or, applied uniformly to every lane.
fn simd_lowercase_runtime<const LANES: usize>(bytes: [u8; LANES]) -> (r: [u8; LANES])
    ensures
        r@ == lowered(bytes@),
{
    let mut out = [0u8; LANES];
    let mut i: usize = 0;
    while i < LANES
        invariant
            i <= LANES,
            forall|j: int| 0 <= j < i ==> out[j] == ascii_lower(bytes[j]),
        decreases LANES - i,
    {
        let b = bytes[i];
        let lower_mask = b >= 65u8;
        let upper_mask = b <= 90u8;
        let in_range = lower_mask && upper_mask;
        let bit: u8 = if in_range {
            0b100000
        } else {
            0
        };
        proof {
            assert(65 <= b <= 90 ==> b | 32u8 == b + 32) by (bit_vector);
            assert(b | 0u8 == b) by (bit_vector);
        }
        out[i] = b | bit;
        i = i + 1;
    }
    assert(out@ =~= lowered(bytes@));
    out
}

/// Byte-at-a-time lowercase of every lane.
#[allow(dead_code)]
fn simd_lowercase_comptime<const LANES: usize>(bytes: [u8; LANES]) -> (r: [u8; LANES])
    ensures
        r@ == lowered(bytes@),
{
    let mut lower_mask = bytes;
    let mut i: usize = 0;
    while i < LANES
        invariant
            i <= LANES,
            forall|j: int| 0 <= j < i ==> lower_mask[j] == ascii_lower(bytes[j]),
            forall|j: int| i <= j < LANES ==> lower_mask[j] == bytes[j],
        decreases LANES - i,
    {
        let b = lower_mask[i];
        lower_mask[i] = if b >= 65 && b <= 90 {
            b + 32
        } else {
            b
        };
        i = i + 1;
    }
    assert(lower_mask@ =~= lowered(bytes@));
    lower_mask
}

/// ASCII lowercase of every lane of `bytes`.
pub fn simd_lowercase<const LANES: usize>(bytes: [u8; LANES]) -> (r: [u8; LANES])
    ensures
        r@ == lowered(bytes@),
{
    simd_lowercase_runtime(bytes)
}

/// Lowercasing twice is lowercasing once.
pub proof fn lemma_lowercase_idempotent(v: Seq<u8>)
    ensures
        lowered(lowered(v)) == lowered(v),
{
    assert(lowered(lowered(v)) =~= lowered(v));
}

} // verus!
