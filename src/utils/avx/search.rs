//! Substring search over a haystack scanned in 64-byte blocks.
//!
//! Each kernel broadcasts the needle's first byte, builds the bitmask of the
//! lanes of a block that hold it, and checks the candidates from the lowest
//! lane up with a verification window suited to the needle's length. Every
//! kernel returns the offset of the first occurrence, or the haystack's
//! length when there is none.
use vstd::prelude::*;

use crate::utils::bitmask::{
    eq_mask, has_bit, lemma_and_bits, lemma_lowest_bit, lemma_no_bits_in_zero, lemma_shift_in_carry,
    lemma_toggle_bit, lemma_top_bit,
};

verus! {

/// The needle `n` occurs in `h` at offset `p`.
pub open spec fn matches_at(h: Seq<u8>, n: Seq<u8>, p: int) -> bool {
    &&& 0 <= p
    &&& p + n.len() <= h.len()
    &&& forall|j: int| 0 <= j < n.len() ==> #[trigger] h[p + j] == n[j]
}

/// `r` is the offset of the first occurrence of `n` in `h`, or `h.len()`
/// when `n` does not occur in `h`.
pub open spec fn is_first_match(h: Seq<u8>, n: Seq<u8>, r: int) -> bool {
    &&& 0 <= r <= h.len()
    &&& r < h.len() ==> matches_at(h, n, r)
    &&& forall|p: int| 0 <= p < r ==> !#[trigger] matches_at(h, n, p)
}

/// A nonempty needle has one first occurrence.
pub proof fn lemma_first_match_unique(h: Seq<u8>, n: Seq<u8>, a: int, b: int)
    requires
        n.len() >= 1,
        is_first_match(h, n, a),
        is_first_match(h, n, b),
    ensures
        a == b,
{
    if a < b {
        assert(matches_at(h, n, a));
    } else if b < a {
        assert(matches_at(h, n, b));
    }
}

/// How a candidate offset, whose first byte already matched, is checked.
#[derive(Clone, Copy)]
pub(crate) enum Window {
    /// The whole needle is compared.
    Full,
    /// The needle after its first byte is compared.
    SkipHead,
    /// A fixed low half and a high half masked to the needle's length.
    Halves(usize),
}

pub(crate) open spec fn window_fits(w: Window, n: nat) -> bool {
    match w {
        Window::Halves(half) => half <= n,
        _ => true,
    }
}

/// Relies on memchr::memmem::find: the offset of the first occurrence of
/// `needle` in `haystack` (0 for an empty needle), `None` when it does not
/// occur.
#[verifier::external_body]
fn memmem_find(haystack: &[u8], needle: &[u8]) -> (r: Option<usize>)
    ensures
        match r {
            Some(i) => matches_at(haystack@, needle@, i as int) && forall|p: int|
                0 <= p < i ==> !#[trigger] matches_at(haystack@, needle@, p),
            None => forall|p: int| !#[trigger] matches_at(haystack@, needle@, p),
        },
{
    memchr::memmem::find(haystack, needle)
}

/// Search for needles the kernels do not cover.
fn rt_search(haystack: &[u8], needle: &[u8]) -> (r: usize)
    ensures
        is_first_match(haystack@, needle@, r as int),
{
    match memmem_find(haystack, needle) {
        Some(i) => i,
        None => haystack.len(),
    }
}

/// Compares `haystack[p + j]` with `needle[j]` for `from <= j < to`.
fn window_eq(haystack: &[u8], p: usize, needle: &[u8], from: usize, to: usize) -> (r: bool)
    requires
        from <= to <= needle.len(),
        p + needle.len() <= haystack.len(),
    ensures
        r == forall|j: int| from <= j < to ==> haystack[p + j] == needle[j],
{
    let mut j = from;
    while j < to
        invariant
            from <= j <= to <= needle.len(),
            p + needle.len() <= haystack.len(),
            forall|k: int| from <= k < j ==> haystack[p + k] == needle[k],
        decreases to - j,
    {
        if haystack[p + j] != needle[j] {
            return false;
        }
        j = j + 1;
    }
    true
}

/// Whether the needle occurs at the candidate offset `p`, whose first byte
/// is known to match.
pub(crate) fn verify_candidate(haystack: &[u8], p: usize, needle: &[u8], window: Window) -> (r: bool)
    requires
        needle.len() >= 1,
        p < haystack.len(),
        haystack[p as int] == needle[0],
        window_fits(window, needle.len() as nat),
    ensures
        r == matches_at(haystack@, needle@, p as int),
{
    if needle.len() > haystack.len() - p {
        return false;
    }
    let n = needle.len();
    let r = match window {
        Window::Full => window_eq(haystack, p, needle, 0, n),
        Window::SkipHead => window_eq(haystack, p, needle, 1, n),
        Window::Halves(half) => window_eq(haystack, p, needle, 0, half) && window_eq(
            haystack,
            p,
            needle,
            half,
            n,
        ),
    };
    r
}

/// The kernel shared by the needle-length classes that check candidates
/// with a verification window.
fn scan(haystack: &[u8], needle: &[u8], window: Window) -> (r: usize)
    requires
        needle.len() >= 1,
        window_fits(window, needle.len() as nat),
    ensures
        is_first_match(haystack@, needle@, r as int),
{
    let len = haystack.len();
    if needle.len() > len {
        return len;
    }
    let end = len - needle.len();
    let head = needle[0];
    let mut base: usize = 0;
    loop
        invariant
            needle.len() >= 1,
            window_fits(window, needle.len() as nat),
            len == haystack.len(),
            end == len - needle.len(),
            head == needle[0],
            base <= end,
            forall|p: int| 0 <= p < base ==> !#[trigger] matches_at(haystack@, needle@, p),
        decreases end - base,
    {
        let mut idx = eq_mask(haystack, base, head);
        proof {
            assert forall|p: int|
                base <= p < base + 64 && #[trigger] matches_at(haystack@, needle@, p) implies has_bit(
                idx,
                (p - base) as u64,
            ) by {
                assert(haystack@[p + 0] == needle@[0]);
                assert(has_bit(idx, (p - base) as u64));
            }
        }
        while idx != 0
            invariant
                needle.len() >= 1,
                window_fits(window, needle.len() as nat),
                len == haystack.len(),
                end == len - needle.len(),
                head == needle[0],
                base <= end,
                forall|p: int| 0 <= p < base ==> !#[trigger] matches_at(haystack@, needle@, p),
                forall|k: u64|
                    k < 64 && #[trigger] has_bit(idx, k) ==> base + k < len && haystack[base + k]
                        == head,
                forall|p: int|
                    base <= p < base + 64 && #[trigger] matches_at(haystack@, needle@, p)
                        ==> has_bit(idx, (p - base) as u64),
            decreases idx,
        {
            proof {
                lemma_lowest_bit(idx);
            }
            let occ = idx.trailing_zeros() as u64;
            let p = base + occ as usize;
            if verify_candidate(haystack, p, needle, window) {
                proof {
                    assert forall|q: int| 0 <= q < p implies !#[trigger] matches_at(
                        haystack@,
                        needle@,
                        q,
                    ) by {
                        if q >= base {
                            assert(!has_bit(idx, (q - base) as u64));
                        }
                    }
                }
                return p;
            }
            let next = idx ^ (1u64 << occ);
            proof {
                assert forall|k: u64| k < 64 implies #[trigger] has_bit(next, k) == if k == occ {
                    !has_bit(idx, k)
                } else {
                    has_bit(idx, k)
                } by {
                    lemma_toggle_bit(idx, occ, k);
                }
                assert(next < idx) by (bit_vector)
                    requires
                        next == idx ^ (1u64 << occ),
                        occ < 64,
                        (idx >> occ) & 1u64 == 1u64,
                ;
            }
            idx = next;
        }
        proof {
            assert forall|p: int|
                base <= p < base + 64 implies !#[trigger] matches_at(haystack@, needle@, p) by {
                lemma_no_bits_in_zero((p - base) as u64);
            }
        }
        if end - base < 64 {
            return len;
        }
        base = base + 64;
    }
}

/// First offset of the byte `needle` in `haystack`, or `haystack.len()`.
pub fn index_of(haystack: &[u8], needle: u8) -> (r: usize)
    ensures
        is_first_match(haystack@, seq![needle], r as int),
{
    let len = haystack.len();
    let mut base: usize = 0;
    while base < len
        invariant
            len == haystack.len(),
            forall|p: int| 0 <= p < base ==> !#[trigger] matches_at(haystack@, seq![needle], p),
        decreases len - base,
    {
        let idx = eq_mask(haystack, base, needle);
        if idx != 0 {
            proof {
                lemma_lowest_bit(idx);
            }
            let occ = idx.trailing_zeros() as u64;
            proof {
                assert(haystack[base + occ] == needle);
                assert forall|q: int| 0 <= q < base + occ implies !#[trigger] matches_at(
                    haystack@,
                    seq![needle],
                    q,
                ) by {
                    if q >= base {
                        assert(!has_bit(idx, (q - base) as u64));
                        assert(haystack[q + 0] != seq![needle][0]);
                    }
                }
                assert(matches_at(haystack@, seq![needle], base + occ)) by {
                    assert(haystack[base + occ + 0] == seq![needle][0]);
                }
            }
            return base + occ as usize;
        }
        proof {
            assert forall|p: int|
                base <= p < base + 64 implies !#[trigger] matches_at(
                haystack@,
                seq![needle],
                p,
            ) by {
                lemma_no_bits_in_zero((p - base) as u64);
                if p < len {
                    assert(!has_bit(idx, (p - base) as u64));
                    assert(haystack[p + 0] != seq![needle][0]);
                }
            }
        }
        if len - base <= 64 {
            return len;
        }
        base = base + 64;
    }
    len
}

/// First offset of the two-byte `needle` in `haystack`, or
/// `haystack.len()`. Candidate lanes of one block are shifted up by one and
/// compared with the second byte; the top lane's candidate is carried into
/// lane 0 of the next block.
pub fn index_of2(haystack: &[u8], needle: &[u8]) -> (r: usize)
    requires
        needle.len() == 2,
    ensures
        is_first_match(haystack@, needle@, r as int),
{
    let len = haystack.len();
    let head = needle[0];
    let tail = needle[1];
    let mut carry: u64 = 0;
    let mut base: usize = 0;
    while base < len
        invariant
            needle.len() == 2,
            len == haystack.len(),
            head == needle[0],
            tail == needle[1],
            carry <= 1,
            carry == 1 <==> (base > 0 && base - 1 < len && haystack[base - 1] == head),
            forall|p: int| 0 <= p < base - 1 ==> !#[trigger] matches_at(haystack@, needle@, p),
        decreases len - base,
    {
        let idx = eq_mask(haystack, base, head);
        let tails = eq_mask(haystack, base, tail);
        let mask = (idx << 1u64) | carry;
        let cmp = tails & mask;
        proof {
            assert forall|k: u64| k < 64 implies #[trigger] has_bit(cmp, k) == (base + k < len
                && haystack[base + k] == tail && base + k >= 1 && haystack[base + k - 1] == head) by {
                lemma_and_bits(tails, mask, k);
                lemma_shift_in_carry(idx, carry, k);
                if k > 0 {
                    assert(has_bit(idx, (k - 1) as u64) == (base + k - 1 < len && haystack[base + k
                        - 1] == head));
                }
            }
            assert forall|p: int|
                base - 1 <= p < base + 63 && 0 <= p implies #[trigger] matches_at(
                haystack@,
                needle@,
                p,
            ) == has_bit(cmp, (p + 1 - base) as u64) by {
                let k = (p + 1 - base) as u64;
                assert(has_bit(cmp, k) == (base + k < len && haystack[base + k] == tail && base + k
                    >= 1 && haystack[base + k - 1] == head));
                if has_bit(cmp, k) {
                    assert forall|j: int| 0 <= j < needle.len() implies #[trigger] haystack@[p + j]
                        == needle@[j] by {}
                }
                if matches_at(haystack@, needle@, p) {
                    assert(haystack@[p + 0] == needle@[0]);
                    assert(haystack@[p + 1] == needle@[1]);
                }
            }
        }
        if cmp != 0 {
            proof {
                lemma_lowest_bit(cmp);
            }
            let occ = cmp.trailing_zeros() as u64;
            proof {
                assert(has_bit(cmp, occ));
                let p = base + occ - 1;
                assert(matches_at(haystack@, needle@, p));
                assert forall|q: int| 0 <= q < p implies !#[trigger] matches_at(
                    haystack@,
                    needle@,
                    q,
                ) by {
                    if q >= base - 1 {
                        assert(!has_bit(cmp, (q + 1 - base) as u64));
                    }
                }
            }
            return base + occ as usize - 1;
        }
        proof {
            assert forall|p: int| 0 <= p < base + 63 implies !#[trigger] matches_at(
                haystack@,
                needle@,
                p,
            ) by {
                if p >= base - 1 {
                    lemma_no_bits_in_zero((p + 1 - base) as u64);
                }
            }
            lemma_top_bit(idx);
        }
        carry = if idx & (1u64 << 63u64) == 0 {
            0
        } else {
            1
        };
        if len - base <= 64 {
            proof {
                assert forall|p: int| 0 <= p < len implies !#[trigger] matches_at(
                    haystack@,
                    needle@,
                    p,
                ) by {
                    if p >= base + 63 {
                        assert(!matches_at(haystack@, needle@, p));
                    }
                }
            }
            return len;
        }
        base = base + 64;
    }
    len
}

/// First offset of `needle` in `haystack`, or `haystack.len()` when it does
/// not occur. The kernel is chosen by the needle's length.
pub fn search(haystack: &[u8], needle: &[u8]) -> (r: usize)
    ensures
        is_first_match(haystack@, needle@, r as int),
{
    let n = needle.len();
    if n > 65 || n == 0 {
        rt_search(haystack, needle)
    } else if n == 65 || n == 33 || n == 17 || n == 9 || n == 5 || n == 3 {
        scan(haystack, needle, Window::SkipHead)
    } else if n == 64 || n == 32 || n == 16 || n == 8 || n == 4 {
        scan(haystack, needle, Window::Full)
    } else if n > 33 {
        scan(haystack, needle, Window::Halves(32))
    } else if n > 17 {
        scan(haystack, needle, Window::Halves(16))
    } else if n > 9 {
        scan(haystack, needle, Window::Halves(8))
    } else if n > 5 {
        scan(haystack, needle, Window::Halves(4))
    } else if n == 2 {
        index_of2(haystack, needle)
    } else {
        let r = index_of(haystack, needle[0]);
        assert(needle@ =~= seq![needle[0]]);
        r
    }
}

/// First offset of `needle` in `haystack`, or `haystack.len()` when it does
/// not occur.
pub fn avx_search<const NEEDLE_SIZE: usize>(haystack: &[u8], needle: &[u8; NEEDLE_SIZE]) -> (r: usize)
    ensures
        is_first_match(haystack@, needle@, r as int),
{
    search(haystack, needle.as_slice())
}

} // verus!
