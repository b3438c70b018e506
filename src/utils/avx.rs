//! Lane masks and lane-index sequences for 64-lane blocks.
use vstd::prelude::*;

use crate::utils::bitmask::has_bit;

pub mod search;

verus! {

/// 64-lane mask that is false on the first `count` lanes and true on the
/// rest.
pub fn mask_false64(count: usize) -> (r: u64)
    requires
        count < 64,
    ensures
        forall|k: u64| k < 64 ==> #[trigger] has_bit(r, k) == (k >= count),
{
    let c = count as u64;
    assert(1u64 << c >= 1) by (bit_vector)
        requires
            c < 64,
    ;
    let r = !((1u64 << c) - 1);
    proof {
        assert forall|k: u64| k < 64 implies #[trigger] has_bit(r, k) == (k >= c) by {
            assert((r >> k) & 1u64 == 1u64 <==> k >= c) by (bit_vector)
                requires
                    r == !(((1u64 << c) - 1u64) as u64),
                    c < 64,
                    k < 64,
            ;
        }
    }
    r
}

/// 16-lane mask that is false on the first `count` lanes and true on the
/// rest.
pub fn mask_false16(count: usize) -> (r: u16)
    requires
        count < 16,
    ensures
        forall|k: u16| k < 16 ==> ((r >> k) & 1u16 == 1u16) == (k >= count),
{
    let c = count as u16;
    assert(1u16 << c >= 1) by (bit_vector)
        requires
            c < 16,
    ;
    let r = !((1u16 << c) - 1);
    proof {
        assert forall|k: u16| k < 16 implies ((r >> k) & 1u16 == 1u16) == (k >= c) by {
            assert((r >> k) & 1u16 == 1u16 <==> k >= c) by (bit_vector)
                requires
                    r == !(((1u16 << c) - 1u16) as u16),
                    c < 16,
                    k < 16,
            ;
        }
    }
    r
}

/// A word whose low `count` bytes are 0xFF and whose other bytes are zero.
pub open spec fn low_bytes_mask(count: nat) -> nat
    decreases count,
{
    if count == 0 {
        0
    } else {
        low_bytes_mask((count - 1) as nat) * 256 + 255
    }
}

/// The word whose low `count` bytes are set, as a mask over eight byte
/// lanes.
pub fn mask_false_i8x8(count: u32) -> (r: u64)
    requires
        count < 8,
    ensures
        r == low_bytes_mask(count as nat),
{
    proof {
        reveal_with_fuel(low_bytes_mask, 8);
    }
    match count {
        0 => 0x00,
        1 => 0xFF,
        2 => 0xFFFF,
        3 => 0xFFFFFF,
        4 => 0xFFFFFFFF,
        5 => 0xFFFFFFFFFF,
        6 => 0xFFFFFFFFFFFF,
        _ => 0xFFFFFFFFFFFFFF,
    }
}

/// The lanes 63, 62, ..., 0.
pub fn decrement_u8() -> (r: [u8; 64])
    ensures
        forall|i: int| 0 <= i < 64 ==> r[i] == 63 - i,
{
    let mut out = [0u8; 64];
    let mut i: usize = 0;
    while i < 64
        invariant
            i <= 64,
            forall|j: int| 0 <= j < i ==> out[j] == 63 - j,
        decreases 64 - i,
    {
        out[i] = (63 - i) as u8;
        i = i + 1;
    }
    out
}

/// The lanes 0, 1, ..., 63.
pub fn increment_u8() -> (r: [u8; 64])
    ensures
        forall|i: int| 0 <= i < 64 ==> r[i] == i,
{
    let mut out = [0u8; 64];
    let mut i: usize = 0;
    while i < 64
        invariant
            i <= 64,
            forall|j: int| 0 <= j < i ==> out[j] == j,
        decreases 64 - i,
    {
        out[i] = i as u8;
        i = i + 1;
    }
    out
}

} // verus!
