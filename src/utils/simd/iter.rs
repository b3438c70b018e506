//! Successive occurrences of a short needle, one 64-byte block at a time.
use vstd::prelude::*;

use crate::utils::avx::search::{matches_at, verify_candidate, Window};
use crate::utils::bitmask::{eq_mask, has_bit, lemma_lowest_bit, lemma_no_bits_in_zero, lemma_toggle_bit};

verus! {

/// Longest needle the iterator accepts.
pub const MAX_NEEDLE_SIZE: usize = 8;

/// Yields, in ascending order, every offset at which `needle` occurs in
/// `source`. The candidate lanes of the current block that are still to be
/// checked are kept in a bitmask between calls.
pub struct SimdFindIter<'a> {
    source: &'a [u8],
    needle: &'a [u8],
    match_index: u64,
    position: usize,
    started: bool,
    cursor: Ghost<int>,
}

impl<'a> SimdFindIter<'a> {
    /// The bytes searched.
    pub closed spec fn haystack(&self) -> Seq<u8> {
        self.source@
    }

    /// The bytes searched for.
    pub closed spec fn pattern(&self) -> Seq<u8> {
        self.needle@
    }

    /// Every occurrence before this offset has been yielded already.
    pub closed spec fn cursor(&self) -> int {
        self.cursor@
    }

    pub closed spec fn wf(&self) -> bool {
        let len = self.source@.len();
        let base = self.position as int;
        &&& 1 <= self.needle@.len() <= MAX_NEEDLE_SIZE
        &&& 0 <= self.cursor@ <= len
        &&& !self.started ==> self.match_index == 0 && self.cursor@ == 0 && base == 0
        &&& self.started ==> base < len && base <= self.cursor@ <= base + 64
        &&& forall|k: u64|
            k < 64 && #[trigger] has_bit(self.match_index, k) ==> base + k >= self.cursor@ && base
                + k < len && self.source@[base + k] == self.needle@[0]
        &&& self.started ==> forall|p: int|
            self.cursor@ <= p < base + 64 && #[trigger] matches_at(self.source@, self.needle@, p)
                ==> has_bit(self.match_index, (p - base) as u64)
    }

    /// Starts before the first byte of `aligned_slice`.
    pub fn new(aligned_slice: &'a [u8], needle: &'a [u8]) -> (r: Self)
        requires
            1 <= needle.len() <= MAX_NEEDLE_SIZE,
        ensures
            r.wf(),
            r.haystack() == aligned_slice@,
            r.pattern() == needle@,
            r.cursor() == 0,
    {
        let r = SimdFindIter {
            source: aligned_slice,
            needle,
            match_index: 0,
            position: 0,
            started: false,
            cursor: Ghost(0),
        };
        proof {
            assert forall|k: u64| k < 64 implies !#[trigger] has_bit(r.match_index, k) by {
                lemma_no_bits_in_zero(k);
            }
        }
        r
    }

    /// The next offset at which the needle occurs, at or after the cursor;
    /// `None` once there is none, and on every call after that.
    pub fn next(&mut self) -> (r: Option<usize>)
        requires
            old(self).wf(),
        ensures
            final(self).wf(),
            final(self).haystack() == old(self).haystack(),
            final(self).pattern() == old(self).pattern(),
            match r {
                Some(p) => {
                    &&& old(self).cursor() <= p
                    &&& matches_at(old(self).haystack(), old(self).pattern(), p as int)
                    &&& forall|q: int|
                        old(self).cursor() <= q < p ==> !#[trigger] matches_at(
                            old(self).haystack(),
                            old(self).pattern(),
                            q,
                        )
                    &&& final(self).cursor() == p + 1
                },
                None => {
                    &&& forall|q: int|
                        old(self).cursor() <= q ==> !#[trigger] matches_at(
                            old(self).haystack(),
                            old(self).pattern(),
                            q,
                        )
                    &&& final(self).cursor() >= old(self).cursor()
                },
            },
    {
        let ghost start = self.cursor@;
        let len = self.source.len();
        let head = self.needle[0];
        loop
            invariant
                self.wf(),
                self.source@ == old(self).source@,
                self.needle@ == old(self).needle@,
                len == self.source@.len(),
                head == self.needle@[0],
                start == old(self).cursor@,
                start <= self.cursor@,
                forall|q: int|
                    start <= q < self.cursor@ ==> !#[trigger] matches_at(
                        self.source@,
                        self.needle@,
                        q,
                    ),
            decreases len + 64 - self.position, if self.started { 0int } else { 1int }, self.match_index,
        {
            if self.match_index != 0 {
                let idx = self.match_index;
                proof {
                    lemma_lowest_bit(idx);
                }
                let occ = idx.trailing_zeros() as u64;
                let next = idx ^ (1u64 << occ);
                let pos = self.position + occ as usize;
                let found = verify_candidate(self.source, pos, self.needle, Window::Full);
                proof {
                    assert forall|k: u64| k < 64 implies #[trigger] has_bit(next, k) == if k == occ {
                        !has_bit(idx, k)
                    } else {
                        has_bit(idx, k)
                    } by {
                        lemma_toggle_bit(idx, occ, k);
                    }
                    assert(next < idx) by (bit_vector)
                        requires
                            next == idx ^ (1u64 << occ),
                            occ < 64,
                            (idx >> occ) & 1u64 == 1u64,
                    ;
                    assert forall|q: int| self.cursor@ <= q < pos implies !#[trigger] matches_at(
                        self.source@,
                        self.needle@,
                        q,
                    ) by {
                        assert(!has_bit(idx, (q - self.position) as u64));
                    }
                }
                self.match_index = next;
                self.cursor = Ghost(pos + 1);
                if found {
                    return Some(pos);
                }
            } else if (!self.started && len > 0) || (self.started && len - self.position > 64) {
                let base = if self.started {
                    self.position + 64
                } else {
                    0
                };
                let mi = eq_mask(self.source, base, head);
                proof {
                    assert forall|p: int|
                        base <= p < base + 64 && #[trigger] matches_at(self.source@, self.needle@, p)
                            implies has_bit(mi, (p - base) as u64) by {
                        assert(self.source@[p + 0] == self.needle@[0]);
                        assert(has_bit(mi, (p - base) as u64));
                    }
                    if self.started {
                        assert forall|q: int|
                            self.cursor@ <= q < base implies !#[trigger] matches_at(
                            self.source@,
                            self.needle@,
                            q,
                        ) by {
                            lemma_no_bits_in_zero((q - self.position) as u64);
                        }
                    }
                }
                self.match_index = mi;
                self.position = base;
                self.started = true;
                self.cursor = Ghost(base as int);
            } else {
                proof {
                    assert forall|q: int| start <= q implies !#[trigger] matches_at(
                        self.source@,
                        self.needle@,
                        q,
                    ) by {
                        if self.cursor@ <= q < self.position + 64 {
                            lemma_no_bits_in_zero((q - self.position) as u64);
                        }
                    }
                }
                return None;
            }
        }
    }
}

} // verus!
