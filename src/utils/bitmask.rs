//! Lane bitmasks: bit `k` of a `u64` stands for lane `k` of a 64-lane block.
use vstd::prelude::*;
use vstd::std_specs::bits::u64_leading_zeros;

verus! {

/// Bit `k` of `m` is set.
pub open spec fn has_bit(m: u64, k: u64) -> bool {
    (m >> k) & 1u64 == 1u64
}

pub proof fn lemma_no_bits_in_zero(k: u64)
    ensures
        !has_bit(0u64, k),
{
    assert((0u64 >> k) & 1u64 == 0u64) by (bit_vector);
}

/// `trailing_zeros` of a nonzero mask is its lowest set bit.
pub proof fn lemma_lowest_bit(m: u64)
    requires
        m != 0,
    ensures
        (m.trailing_zeros() as u64) < 64,
        has_bit(m, m.trailing_zeros() as u64),
        forall|k: u64| k < m.trailing_zeros() ==> !#[trigger] has_bit(m, k),
{
    let tz = m.trailing_zeros();
    assert forall|k: u64| k < tz implies !#[trigger] has_bit(m, k) by {
        assert((m >> k) & 1u64 == 0u64);
    }
}

/// `63 - leading_zeros` of a nonzero mask is its highest set bit.
pub proof fn lemma_highest_bit(m: u64)
    requires
        m != 0,
    ensures
        0 <= u64_leading_zeros(m) < 64,
        has_bit(m, (63 - u64_leading_zeros(m)) as u64),
        forall|k: u64| 63 - u64_leading_zeros(m) < k < 64 ==> !#[trigger] has_bit(m, k),
{
    let lz = u64_leading_zeros(m);
    let top = (63 - lz) as u64;
    assert((m >> top) & 1u64 != 0u64 ==> (m >> top) & 1u64 == 1u64) by (bit_vector);
    assert forall|k: u64| 63 - lz < k < 64 implies !#[trigger] has_bit(m, k) by {
        assert((m >> k) & 1u64 == 0u64);
    }
}

pub proof fn lemma_set_bit(m: u64, i: u64, k: u64)
    requires
        i < 64,
        k < 64,
    ensures
        has_bit(m | (1u64 << i), k) == (k == i || has_bit(m, k)),
{
    assert((((m | (1u64 << i)) >> k) & 1u64 == 1u64) == (k == i || (m >> k) & 1u64 == 1u64))
        by (bit_vector)
        requires
            i < 64,
            k < 64,
    ;
}

pub proof fn lemma_toggle_bit(m: u64, i: u64, k: u64)
    requires
        i < 64,
        k < 64,
    ensures
        has_bit(m ^ (1u64 << i), k) == if k == i { !has_bit(m, k) } else { has_bit(m, k) },
{
    assert((((m ^ (1u64 << i)) >> k) & 1u64 == 1u64) == if k == i {
        !((m >> k) & 1u64 == 1u64)
    } else {
        (m >> k) & 1u64 == 1u64
    }) by (bit_vector)
        requires
            i < 64,
            k < 64,
    ;
}

pub proof fn lemma_and_bits(a: u64, b: u64, k: u64)
    requires
        k < 64,
    ensures
        has_bit(a & b, k) == (has_bit(a, k) && has_bit(b, k)),
{
    assert((((a & b) >> k) & 1u64 == 1u64) == ((a >> k) & 1u64 == 1u64 && (b >> k) & 1u64
        == 1u64)) by (bit_vector)
        requires
            k < 64,
    ;
}

/// Moving every lane one step up and feeding `carry` into lane 0.
pub proof fn lemma_shift_in_carry(m: u64, carry: u64, k: u64)
    requires
        carry <= 1,
        k < 64,
    ensures
        has_bit((m << 1u64) | carry, k) == if k == 0 { carry == 1 } else { has_bit(m, (k - 1) as u64) },
{
    assert((((m << 1u64) | carry) >> k) & 1u64 == 1u64 <==> if k == 0 {
        carry == 1
    } else {
        (m >> ((k - 1) as u64)) & 1u64 == 1u64
    }) by (bit_vector)
        requires
            carry <= 1,
            k < 64,
    ;
}

pub proof fn lemma_top_bit(m: u64)
    ensures
        (m & (1u64 << 63u64) == 0) == !has_bit(m, 63),
{
    assert((m & (1u64 << 63u64) == 0) == !((m >> 63u64) & 1u64 == 1u64)) by (bit_vector);
}

/// Bitmask of the lanes of the 64-byte block at `base` that hold `byte`;
/// lanes past the end of `haystack` are never set.
pub fn eq_mask(haystack: &[u8], base: usize, byte: u8) -> (m: u64)
    requires
        base <= haystack.len(),
    ensures
        forall|k: u64|
            k < 64 ==> #[trigger] has_bit(m, k) == (base + k < haystack.len() && haystack[base
                + k] == byte),
{
    let avail = haystack.len() - base;
    let mut m: u64 = 0;
    let mut j: u64 = 0;
    proof {
        assert forall|k: u64| k < 64 implies !has_bit(m, k) by {
            lemma_no_bits_in_zero(k);
        }
    }
    while j < 64
        invariant
            base <= haystack.len(),
            avail == haystack.len() - base,
            j <= 64,
            forall|k: u64|
                k < 64 ==> #[trigger] has_bit(m, k) == (k < j && base + k < haystack.len()
                    && haystack[base + k] == byte),
        decreases 64 - j,
    {
        if (j as usize) < avail && haystack[base + j as usize] == byte {
            proof {
                assert forall|k: u64| k < 64 implies #[trigger] has_bit(m | (1u64 << j), k) == (k
                    == j || has_bit(m, k)) by {
                    lemma_set_bit(m, j, k);
                }
            }
            m = m | (1u64 << j);
        }
        j = j + 1;
    }
    m
}

} // verus!
