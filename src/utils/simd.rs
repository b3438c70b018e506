use vstd::prelude::*;

use crate::utils::bitmask::{eq_mask, has_bit, lemma_lowest_bit, lemma_no_bits_in_zero, lemma_toggle_bit};

pub mod aligned;
pub mod iter;

verus! {

/// Lane `i` of the result is kept when `i < to_index`, zeroed otherwise.
pub open spec fn padded_right(v: Seq<u8>, to_index: int) -> Seq<u8> {
    Seq::new(v.len(), |i: int| if i < to_index { v[i] } else { 0u8 })
}

/// Lane `i` of the result is zeroed when `i < to_index`, kept otherwise.
pub open spec fn padded_left(v: Seq<u8>, to_index: int) -> Seq<u8> {
    Seq::new(v.len(), |i: int| if i < to_index { 0u8 } else { v[i] })
}

/// Lane `i` of the result is lane `i + amount` of `v`, or zero past the end.
pub open spec fn shifted_left(v: Seq<u8>, amount: int) -> Seq<u8> {
    Seq::new(v.len(), |i: int| if i + amount < v.len() { v[i + amount] } else { 0u8 })
}

/// `k` is the index of the first lane where `a` and `b` differ; when they
/// agree on every lane the index reads as 64, the width of a lane bitmask.
pub open spec fn first_mismatch_is(a: Seq<u8>, b: Seq<u8>, k: int) -> bool {
    if 0 <= k < a.len() {
        (forall|j: int| 0 <= j < k ==> a[j] == b[j]) && a[k] != b[k]
    } else {
        k == 64 && forall|j: int| 0 <= j < a.len() ==> a[j] == b[j]
    }
}

/// Lane mask that is false on the first `count` lanes and true on the rest.
pub fn mask_false<const LANES: usize>(count: usize) -> (r: [bool; LANES])
    requires
        count <= LANES,
    ensures
        forall|i: int| 0 <= i < LANES ==> r[i] == (i >= count),
{
    let mut mask = [true; LANES];
    let mut i: usize = 0;
    while i < count
        invariant
            count <= LANES,
            i <= count,
            forall|j: int| 0 <= j < LANES ==> mask[j] == (j >= i),
        decreases count - i,
    {
        mask[i] = false;
        i = i + 1;
    }
    mask
}

/// Lane-wise choice: lane `i` comes from `on_true` where `mask[i]` holds,
/// from `on_false` elsewhere.
fn select<const LANES: usize>(mask: &[bool; LANES], on_true: &[u8; LANES], on_false: &[u8; LANES]) -> (r: [u8; LANES])
    ensures
        forall|i: int| 0 <= i < LANES ==> r[i] == if mask[i] { on_true[i] } else { on_false[i] },
{
    let mut out = [0u8; LANES];
    let mut i: usize = 0;
    while i < LANES
        invariant
            i <= LANES,
            forall|j: int| 0 <= j < i ==> out[j] == if mask[j] { on_true[j] } else { on_false[j] },
        decreases LANES - i,
    {
        out[i] = if mask[i] { on_true[i] } else { on_false[i] };
        i = i + 1;
    }
    out
}

fn pad_right_zero_runtime<const LANES: usize>(simd: [u8; LANES], to_index: usize) -> (r: [u8; LANES])
    requires
        to_index <= LANES,
    ensures
        r@ == padded_right(simd@, to_index as int),
{
    let mask = mask_false::<LANES>(to_index);
    let r = select(&mask, &[0u8; LANES], &simd);
    assert(r@ =~= padded_right(simd@, to_index as int));
    r
}

#[allow(dead_code)]
fn pad_right_zero_comptime<const LANES: usize>(simd: [u8; LANES], to_index: usize) -> (r: [u8; LANES])
    requires
        to_index <= LANES,
    ensures
        r@ == padded_right(simd@, to_index as int),
{
    let mut array = [0u8; LANES];
    let mut i: usize = 0;
    while i < to_index
        invariant
            to_index <= LANES,
            i <= to_index,
            forall|j: int| 0 <= j < i ==> array[j] == simd[j],
        decreases to_index - i,
    {
        array[i] = simd[i];
        i = i + 1;
    }
    while i < LANES
        invariant
            to_index <= i <= LANES,
            forall|j: int| 0 <= j < to_index ==> array[j] == simd[j],
            forall|j: int| to_index <= j < i ==> array[j] == 0,
        decreases LANES - i,
    {
        array[i] = 0;
        i = i + 1;
    }
    assert(array@ =~= padded_right(simd@, to_index as int));
    array
}

/// Keeps the first `to_index` lanes of `simd` and zeroes the rest.
pub fn pad_right_zero<const LANES: usize>(simd: [u8; LANES], to_index: usize) -> (r: [u8; LANES])
    requires
        to_index <= LANES,
    ensures
        r@ == padded_right(simd@, to_index as int),
{
    pad_right_zero_runtime(simd, to_index)
}

fn pad_left_zero_runtime<const LANES: usize>(simd: [u8; LANES], to_index: usize) -> (r: [u8; LANES])
    requires
        to_index <= LANES,
    ensures
        r@ == padded_left(simd@, to_index as int),
{
    let mask = mask_false::<LANES>(to_index);
    let r = select(&mask, &simd, &[0u8; LANES]);
    assert(r@ =~= padded_left(simd@, to_index as int));
    r
}

#[allow(dead_code)]
fn pad_left_zero_comptime<const LANES: usize>(simd: [u8; LANES], to_index: usize) -> (r: [u8; LANES])
    requires
        to_index <= LANES,
    ensures
        r@ == padded_left(simd@, to_index as int),
{
    let mut array = [0u8; LANES];
    let mut i: usize = to_index;
    while i < LANES
        invariant
            to_index <= i <= LANES,
            forall|j: int| 0 <= j < to_index ==> array[j] == 0,
            forall|j: int| to_index <= j < i ==> array[j] == simd[j],
        decreases LANES - i,
    {
        array[i] = simd[i];
        i = i + 1;
    }
    assert(array@ =~= padded_left(simd@, to_index as int));
    array
}

/// Zeroes the first `to_index` lanes of `simd` and keeps the rest.
pub fn pad_left_zero<const LANES: usize>(simd: [u8; LANES], to_index: usize) -> (r: [u8; LANES])
    requires
        to_index <= LANES,
    ensures
        r@ == padded_left(simd@, to_index as int),
{
    pad_left_zero_runtime(simd, to_index)
}

/// Drops the first `amount` lanes, moves the rest to the front and fills
/// the vacated tail with zeros.
pub fn move_left_zero_end<const LANES: usize>(simd: [u8; LANES], amount: usize) -> (r: [u8; LANES])
    requires
        amount <= LANES,
    ensures
        r@ == shifted_left(simd@, amount as int),
{
    let mut out = [0u8; LANES];
    let mut i: usize = 0;
    while i < LANES - amount
        invariant
            amount <= LANES,
            i <= LANES - amount,
            forall|j: int| 0 <= j < i ==> out[j] == simd[j + amount],
            forall|j: int| i <= j < LANES ==> out[j] == 0,
        decreases LANES - amount - i,
    {
        out[i] = simd[i + amount];
        i = i + 1;
    }
    assert(out@ =~= shifted_left(simd@, amount as int));
    out
}

/// Whether the first lane where `vector` and `needle` differ is lane
/// `length` (64 standing for "no lane differs").
pub fn start_with<const LANES: usize>(vector: [u8; LANES], needle: [u8; LANES], length: u32) -> (r: bool)
    requires
        LANES <= 64,
    ensures
        r == first_mismatch_is(vector@, needle@, length as int),
{
    let mut i: usize = 0;
    while i < LANES
        invariant
            i <= LANES <= 64,
            forall|j: int| 0 <= j < i ==> vector[j] == needle[j],
        decreases LANES - i,
    {
        if vector[i] != needle[i] {
            return i as u32 == length;
        }
        i = i + 1;
    }
    length == 64
}

/// The needle occurs in `v` at lane `p`: its first byte there, and every
/// lane that `mask` selects within `v`.
pub open spec fn masked_match_at(v: Seq<u8>, n: Seq<u8>, mask: Seq<bool>, p: int) -> bool {
    &&& 0 <= p < v.len()
    &&& v[p] == n[0]
    &&& forall|j: int|
        0 <= j < n.len() && #[trigger] mask[j] ==> p + j < v.len() && v[p + j] == n[j]
}

/// Whether the needle occurs at lane `p`, given that its first byte does.
fn masked_match<const LANES: usize, const NEEDLE: usize>(
    vector: &[u8; LANES],
    p: usize,
    needle: &[u8; NEEDLE],
    mask: &[bool; NEEDLE],
) -> (r: bool)
    requires
        NEEDLE >= 1,
        p < LANES,
        vector[p as int] == needle[0],
    ensures
        r == masked_match_at(vector@, needle@, mask@, p as int),
{
    let mut j: usize = 0;
    while j < NEEDLE
        invariant
            NEEDLE >= 1,
            p < LANES,
            j <= NEEDLE,
            forall|k: int|
                0 <= k < j && #[trigger] mask@[k] ==> p + k < LANES && vector@[p + k] == needle@[k],
        decreases NEEDLE - j,
    {
        if mask[j] && (j >= LANES - p || vector[p + j] != needle[j]) {
            return false;
        }
        j = j + 1;
    }
    true
}

/// First lane of `vector` at which `needle` occurs, comparing the needle
/// lanes that `mask` selects; `LANES` when it occurs nowhere.
pub fn index_of<const LANES: usize, const NEEDLE: usize>(
    vector: [u8; LANES],
    needle: [u8; NEEDLE],
    mask: [bool; NEEDLE],
) -> (r: usize)
    requires
        NEEDLE >= 1,
        LANES <= 64,
    ensures
        r <= LANES,
        r < LANES ==> masked_match_at(vector@, needle@, mask@, r as int),
        forall|p: int| 0 <= p < r ==> !#[trigger] masked_match_at(vector@, needle@, mask@, p),
{
    let mut idx = eq_mask(vector.as_slice(), 0, needle[0]);
    while idx != 0
        invariant
            NEEDLE >= 1,
            LANES <= 64,
            forall|k: u64|
                k < 64 && #[trigger] has_bit(idx, k) ==> k < LANES && vector[k as int] == needle[0],
            forall|p: int|
                0 <= p < LANES && #[trigger] masked_match_at(vector@, needle@, mask@, p) ==> has_bit(
                    idx,
                    p as u64,
                ),
        decreases idx,
    {
        proof {
            lemma_lowest_bit(idx);
        }
        let occ = idx.trailing_zeros() as u64;
        if masked_match(&vector, occ as usize, &needle, &mask) {
            proof {
                assert forall|q: int| 0 <= q < occ implies !#[trigger] masked_match_at(
                    vector@,
                    needle@,
                    mask@,
                    q,
                ) by {
                    assert(!has_bit(idx, q as u64));
                }
            }
            return occ as usize;
        }
        let next = idx ^ (1u64 << occ);
        proof {
            assert forall|k: u64| k < 64 implies #[trigger] has_bit(next, k) == if k == occ {
                !has_bit(idx, k)
            } else {
                has_bit(idx, k)
            } by {
                lemma_toggle_bit(idx, occ, k);
            }
            assert(next < idx) by (bit_vector)
                requires
                    next == idx ^ (1u64 << occ),
                    occ < 64,
                    (idx >> occ) & 1u64 == 1u64,
            ;
        }
        idx = next;
    }
    proof {
        assert forall|p: int| 0 <= p < LANES implies !#[trigger] masked_match_at(
            vector@,
            needle@,
            mask@,
            p,
        ) by {
            lemma_no_bits_in_zero(p as u64);
        }
    }
    LANES
}

} // verus!
