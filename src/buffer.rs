//! Owned fixed-capacity byte buffers, read and written in whole blocks.
use vstd::prelude::*;
use vstd::slice::{slice_subrange, slice_to_vec};

pub mod buffer_pool;

verus! {

/// Default alignment class of a buffer: one page.
pub const ALIGN: usize = 4096;

/// `n` is a power of two.
pub open spec fn is_power_of_two(n: nat) -> bool
    decreases n,
{
    if n <= 1 {
        n == 1
    } else {
        n % 2 == 0 && is_power_of_two(n / 2)
    }
}

/// `n` zero bytes.
pub open spec fn zeros(n: nat) -> Seq<u8> {
    Seq::new(n, |i: int| 0u8)
}

/// `r` is the offset of the first zero byte among the `span` bytes of `s`
/// that start at `start`, or `span` when none of them is zero.
pub open spec fn is_first_zero(s: Seq<u8>, start: int, span: int, r: int) -> bool {
    &&& 0 <= r <= span
    &&& r < span ==> s[start + r] == 0
    &&& forall|j: int| 0 <= j < r ==> #[trigger] s[start + j] != 0
}

/// `s` after its first `min(s.len(), data.len())` bytes are copied from
/// `data`.
pub open spec fn copied_in(s: Seq<u8>, data: Seq<u8>) -> Seq<u8> {
    let k = if data.len() < s.len() { data.len() as int } else { s.len() as int };
    data.subrange(0, k) + s.subrange(k, s.len() as int)
}

/// Copying into a fresh buffer of `n` bytes reproduces the first
/// `min(n, data.len())` bytes of `data`, and leaves zeros after them.
pub proof fn lemma_copy_round_trip(n: nat, data: Seq<u8>)
    ensures
        ({
            let k = if data.len() < n { data.len() as int } else { n as int };
            let s = copied_in(zeros(n), data);
            &&& s.len() == n
            &&& s.subrange(0, k) == data.subrange(0, k)
            &&& forall|i: int| k <= i < n ==> s[i] == 0
        }),
{
    let k = if data.len() < n { data.len() as int } else { n as int };
    let s = copied_in(zeros(n), data);
    assert(s.subrange(0, k) =~= data.subrange(0, k));
}

/// `s` with the bytes from `start` on replaced by `v`.
pub open spec fn overwritten(s: Seq<u8>, start: int, v: Seq<u8>) -> Seq<u8> {
    Seq::new(s.len(), |i: int| if start <= i < start + v.len() { v[i - start] } else { s[i] })
}

/// The offset of the first zero byte among the `span` bytes of `s` from
/// `start` on, or `span`.
pub open spec fn first_zero(s: Seq<u8>, start: int, span: int) -> int {
    choose|k: int| is_first_zero(s, start, span, k)
}

/// The string stored at `start`: its bytes up to and including the first
/// zero byte, or all `span` bytes when none of them is zero.
pub open spec fn stored_cstr(s: Seq<u8>, start: int, span: int) -> Seq<u8> {
    let k = first_zero(s, start, span);
    s.subrange(start, start + if k < span { k + 1 } else { k })
}

pub proof fn lemma_first_zero_unique(s: Seq<u8>, start: int, span: int, k: int)
    requires
        is_first_zero(s, start, span, k),
    ensures
        first_zero(s, start, span) == k,
{
    let c = first_zero(s, start, span);
    assert(is_first_zero(s, start, span, c));
    if c < k {
        assert(s[start + c] != 0);
    } else if k < c {
        assert(s[start + k] != 0);
    }
}

/// Why a buffer could not be allocated.
#[derive(Debug, Clone, Copy, PartialEq, Eq, Structural)]
pub enum BufferError {
    /// The requested capacity is zero.
    NoCapacity,
}

/// `LEN` bytes owned by one holder, of the alignment class `ALIGN`. Its
/// contents always have exactly `LEN` bytes.
#[derive(Debug)]
pub struct Buffer<const LEN: usize, const ALIGN: usize> {
    data: Vec<u8>,
}

impl<const LEN: usize, const ALIGN: usize> View for Buffer<LEN, ALIGN> {
    type V = Seq<u8>;

    closed spec fn view(&self) -> Seq<u8> {
        self.data@
    }
}

impl<const LEN: usize> Buffer<LEN, 4096> {
    /// A zero-filled buffer of the page alignment class.
    pub fn allocate4k() -> (r: Buffer<LEN, 4096>)
        requires
            LEN > 0,
        ensures
            r@ == zeros(LEN as nat),
    {
        Buffer::allocate_unchecked()
    }
}

impl<const LEN: usize, const ALIGN: usize> Buffer<LEN, ALIGN> {
    /// A zero-filled buffer.
    pub fn allocate() -> (r: Self)
        requires
            LEN > 0,
            is_power_of_two(ALIGN as nat),
        ensures
            r@ == zeros(LEN as nat),
    {
        Self::allocate_unchecked()
    }

    /// A zero-filled buffer, or `NoCapacity` when `LEN` is zero.
    pub fn try_allocate() -> (r: Result<Self, BufferError>)
        requires
            is_power_of_two(ALIGN as nat),
        ensures
            match r {
                Ok(b) => LEN > 0 && b@ == zeros(LEN as nat),
                Err(e) => LEN == 0 && e == BufferError::NoCapacity,
            },
    {
        if LEN == 0 {
            Err(BufferError::NoCapacity)
        } else {
            Ok(Self::allocate_unchecked())
        }
    }

    /// A zero-filled buffer; the caller vouches for the alignment class.
    pub fn allocate_unchecked() -> (r: Self)
        ensures
            r@ == zeros(LEN as nat),
    {
        let data = vec![0u8; LEN];
        let r = Buffer { data };
        assert(r@ =~= zeros(LEN as nat));
        r
    }

    /// Sets every byte to `value`.
    pub fn fill(&mut self, value: u8)
        requires
            old(self)@.len() == LEN,
        ensures
            final(self)@ == Seq::new(LEN as nat, |i: int| value),
    {
        let mut i: usize = 0;
        while i < LEN
            invariant
                self@.len() == LEN,
                i <= LEN,
                forall|j: int| 0 <= j < i ==> self@[j] == value,
            decreases LEN - i,
        {
            self.data.set(i, value);
            i = i + 1;
        }
        assert(self@ =~= Seq::new(LEN as nat, |i: int| value));
    }

    /// Copies the first `min(LEN, data.len())` bytes of `data` to the start
    /// of the buffer; the bytes after them are left as they were.
    pub fn copy_from_slice(&mut self, data: &[u8])
        requires
            old(self)@.len() == LEN,
        ensures
            final(self)@ == copied_in(old(self)@, data@),
    {
        let len = if data.len() < LEN {
            data.len()
        } else {
            LEN
        };
        let mut i: usize = 0;
        while i < len
            invariant
                len <= LEN,
                len <= data.len(),
                i <= len,
                self@.len() == LEN,
                forall|j: int| 0 <= j < i ==> self@[j] == data@[j],
                forall|j: int| i <= j < LEN ==> self@[j] == old(self)@[j],
            decreases len - i,
        {
            self.data.set(i, data[i]);
            i = i + 1;
        }
        assert(self@ =~= data@.subrange(0, len as int) + old(self)@.subrange(len as int, LEN as int));
    }

    /// The `LANES` bytes of block `block`.
    pub fn load_simd<const LANES: usize>(&self, block: usize) -> (r: [u8; LANES])
        requires
            self@.len() == LEN,
            block * LANES + LANES <= LEN,
        ensures
            r@ == self@.subrange(block * LANES, block * LANES + LANES),
    {
        let start = block * LANES;
        let mut out = [0u8; LANES];
        let mut i: usize = 0;
        while i < LANES
            invariant
                self@.len() == LEN,
                start == block * LANES,
                start + LANES <= LEN,
                i <= LANES,
                forall|j: int| 0 <= j < i ==> out[j] == self@[start + j],
            decreases LANES - i,
        {
            out[i] = self.data[start + i];
            i = i + 1;
        }
        assert(out@ =~= self@.subrange(block * LANES, block * LANES + LANES));
        out
    }

    /// Overwrites block `block` with `value`.
    pub fn store_simd<const LANES: usize>(&mut self, block: usize, value: [u8; LANES])
        requires
            old(self)@.len() == LEN,
            block * LANES + LANES <= LEN,
        ensures
            final(self)@ == overwritten(old(self)@, block * LANES, value@),
    {
        let start = block * LANES;
        let mut i: usize = 0;
        while i < LANES
            invariant
                self@.len() == LEN,
                start == block * LANES,
                start + LANES <= LEN,
                i <= LANES,
                forall|j: int|
                    0 <= j < LEN ==> #[trigger] self@[j] == if start <= j < start + i {
                        value[j - start]
                    } else {
                        old(self)@[j]
                    },
            decreases LANES - i,
        {
            self.data.set(start + i, value[i]);
            i = i + 1;
        }
        assert(self@ =~= overwritten(old(self)@, block * LANES, value@));
    }

    /// Offset, from the start of block `block`, of the first zero byte in
    /// the `count` blocks that start there; `count * LANES` when there is
    /// none.
    pub fn cstr_len<const LANES: usize>(&self, block: usize, count: usize) -> (r: usize)
        requires
            self@.len() == LEN,
            LANES > 0,
            (block + count) * LANES <= LEN,
        ensures
            is_first_zero(self@, block * LANES, count * LANES, r as int),
    {
        proof {
            assert((block + count) * LANES == block * LANES + count * LANES) by (nonlinear_arith);
            assert(block + count <= (block + count) * LANES) by (nonlinear_arith)
                requires
                    LANES > 0,
            ;
        }
        let ghost start = block * LANES;
        let span = count * LANES;
        let mut counter: usize = 0;
        let mut done: usize = 0;
        while counter < count
            invariant
                self@.len() == LEN,
                LANES > 0,
                start == block * LANES,
                start + span <= LEN,
                span == count * LANES,
                block + count <= LEN,
                counter <= count,
                done == counter * LANES,
                done <= span,
                forall|j: int| 0 <= j < done ==> #[trigger] self@[start + j] != 0,
            decreases count - counter,
        {
            proof {
                assert(done + LANES <= span) by (nonlinear_arith)
                    requires
                        done == counter * LANES,
                        span == count * LANES,
                        counter < count,
                ;
                assert((block + counter) * LANES == start + done) by (nonlinear_arith)
                    requires
                        start == block * LANES,
                        done == counter * LANES,
                ;
            }
            let vector = self.load_simd::<LANES>(block + counter);
            proof {
                assert forall|j: int| 0 <= j < LANES implies vector[j] == #[trigger] self@[start
                    + done + j] by {
                    assert(vector@[j] == self@.subrange(start + done, start + done + LANES)[j]);
                }
            }
            let mut i: usize = 0;
            while i < LANES
                invariant
                    self@.len() == LEN,
                    start == block * LANES,
                    span == count * LANES,
                    start + span <= LEN,
                    done + LANES <= span,
                    forall|j: int| 0 <= j < LANES ==> vector[j] == #[trigger] self@[start + done + j],
                    i <= LANES,
                    forall|j: int| 0 <= j < done + i ==> #[trigger] self@[start + j] != 0,
                decreases LANES - i,
            {
                if vector[i] == 0 {
                    proof {
                        assert(self@[start + done + i] == 0);
                        assert(self@[start + (done + i)] == 0);
                    }
                    return done + i;
                }
                proof {
                    assert(self@[start + done + i] != 0);
                    assert(self@[start + (done + i)] != 0);
                }
                i = i + 1;
            }
            proof {
                assert(done + LANES == (counter + 1) * LANES) by (nonlinear_arith)
                    requires
                        done == counter * LANES,
                ;
            }
            done = done + LANES;
            counter = counter + 1;
        }
        span
    }

    /// The string stored from block `block` on: its bytes up to and
    /// including the first zero byte, or all `count` blocks when none of
    /// them holds a zero byte.
    pub fn load_cstr<const LANES: usize>(&self, block: u32, count: u32) -> (r: Vec<u8>)
        requires
            self@.len() == LEN,
            LANES > 0,
            (block + count) * LANES <= LEN,
        ensures
            r@ == stored_cstr(self@, block * LANES, count * LANES),
    {
        let block = block as usize;
        let count = count as usize;
        let k = self.cstr_len::<LANES>(block, count);
        proof {
            assert((block + count) * LANES == block * LANES + count * LANES) by (nonlinear_arith);
        }
        let start = block * LANES;
        let end = if k < count * LANES {
            start + k + 1
        } else {
            start + k
        };
        let r = slice_to_vec(slice_subrange(self.data.as_slice(), start, end));
        proof {
            lemma_first_zero_unique(self@, block * LANES, count * LANES, k as int);
        }
        r
    }

    /// Number of values of type `T` that fit in the buffer.
    pub fn ptr_size<T>(&self) -> (r: usize)
        requires
            vstd::layout::size_of::<T>() > 0,
        ensures
            r == LEN as int / vstd::layout::size_of::<T>() as int,
    {
        LEN / core::mem::size_of::<T>()
    }

    /// A view of the bytes from `offset` to the end of the buffer.
    pub fn slice(self, offset: usize) -> (r: BufferSlice<LEN, ALIGN>)
        requires
            self@.len() == LEN,
            offset <= LEN,
            LEN <= u32::MAX,
        ensures
            r.buffer_view() == self@,
            r.offset_view() == offset,
            r.len_view() == LEN - offset,
    {
        BufferSlice::new(self, offset as u32, (LEN - offset) as u32)
    }

    /// The same bytes under a smaller or equal alignment class, which the
    /// allocation satisfies too.
    pub fn with_alignment<const NEW_ALIGN: usize>(self) -> (r: Buffer<LEN, NEW_ALIGN>)
        requires
            is_power_of_two(NEW_ALIGN as nat),
            NEW_ALIGN <= ALIGN,
        ensures
            r@ == self@,
    {
        Buffer { data: self.data }
    }
}

/// A buffer together with the range `[offset, offset + len)` of it that
/// holds valid bytes.
pub struct BufferSlice<const LEN: usize, const ALIGN: usize> {
    buffer: Buffer<LEN, ALIGN>,
    offset: u32,
    len: u32,
}

/// The valid bytes.
impl<const LEN: usize, const ALIGN: usize> core::ops::Deref for BufferSlice<LEN, ALIGN> {
    type Target = [u8];

    fn deref(&self) -> &[u8] {
        self.as_slice()
    }
}

impl<const LEN: usize, const ALIGN: usize> BufferSlice<LEN, ALIGN> {
    #[verifier::type_invariant]
    spec fn inv(&self) -> bool {
        &&& self.buffer@.len() == LEN
        &&& self.offset + self.len <= LEN
    }

    /// Contents of the whole underlying buffer.
    pub closed spec fn buffer_view(&self) -> Seq<u8> {
        self.buffer@
    }

    pub closed spec fn offset_view(&self) -> int {
        self.offset as int
    }

    pub closed spec fn len_view(&self) -> int {
        self.len as int
    }

    /// The valid bytes.
    pub open spec fn bytes(&self) -> Seq<u8> {
        self.buffer_view().subrange(self.offset_view(), self.offset_view() + self.len_view())
    }

    pub fn new(buffer: Buffer<LEN, ALIGN>, offset: u32, len: u32) -> (r: Self)
        requires
            buffer@.len() == LEN,
            offset + len <= LEN,
        ensures
            r.buffer_view() == buffer@,
            r.offset_view() == offset,
            r.len_view() == len,
    {
        BufferSlice { buffer, offset, len }
    }

    /// A zero-filled buffer whose first `min(LEN, slice.len())` bytes are
    /// copied from `slice`; those bytes are the valid range.
    pub fn from_slice(slice: &[u8]) -> (r: Self)
        requires
            0 < LEN <= u32::MAX,
            is_power_of_two(ALIGN as nat),
        ensures
            ({
                let k = if slice@.len() < LEN { slice@.len() as int } else { LEN as int };
                &&& r.offset_view() == 0
                &&& r.len_view() == k
                &&& r.buffer_view() == slice@.subrange(0, k) + zeros((LEN - k) as nat)
            }),
    {
        let mut buffer = Buffer::<LEN, ALIGN>::allocate();
        let len = if slice.len() < LEN {
            slice.len()
        } else {
            LEN
        };
        buffer.copy_from_slice(slice);
        assert(zeros(LEN as nat).subrange(len as int, LEN as int) =~= zeros((LEN - len) as nat));
        Self::new(buffer, 0, len as u32)
    }

    /// The valid bytes as text, invalid UTF-8 replaced.
    pub fn as_str(&self) -> (r: String)
        ensures
            r@ == utf8_lossy(self.bytes()),
    {
        from_utf8_lossy(self.as_slice())
    }

    /// The valid bytes.
    pub fn as_slice(&self) -> (r: &[u8])
        ensures
            r@ == self.bytes(),
    {
        proof {
            use_type_invariant(self);
        }
        slice_subrange(
            self.buffer.data.as_slice(),
            self.offset as usize,
            self.offset as usize + self.len as usize,
        )
    }

    pub fn buffer(&self) -> (r: &Buffer<LEN, ALIGN>)
        ensures
            r@ == self.buffer_view(),
            r@.len() == LEN,
    {
        proof {
            use_type_invariant(self);
        }
        &self.buffer
    }

    pub fn offset(&self) -> (r: usize)
        ensures
            r == self.offset_view(),
    {
        self.offset as usize
    }

    pub fn len(&self) -> (r: usize)
        ensures
            r == self.len_view(),
    {
        self.len as usize
    }

    /// Makes the first `len` bytes from the offset the valid range.
    pub fn set_len(&mut self, len: u32)
        requires
            old(self).offset_view() + len <= LEN,
        ensures
            final(self).buffer_view() == old(self).buffer_view(),
            final(self).offset_view() == old(self).offset_view(),
            final(self).len_view() == len,
    {
        self.set_len_unchecked(len);
    }

    /// As `set_len`; the caller vouches for the bound.
    pub fn set_len_unchecked(&mut self, len: u32)
        requires
            old(self).offset_view() + len <= LEN,
        ensures
            final(self).buffer_view() == old(self).buffer_view(),
            final(self).offset_view() == old(self).offset_view(),
            final(self).len_view() == len,
    {
        proof {
            use_type_invariant(&*self);
        }
        self.len = len;
    }

    /// Room from the offset to the end of the buffer.
    pub fn capacity(&self) -> (r: usize)
        ensures
            r == LEN - self.offset_view(),
    {
        proof {
            use_type_invariant(self);
        }
        LEN - self.offset as usize
    }

    pub fn into_inner(self) -> (r: Buffer<LEN, ALIGN>)
        ensures
            r@ == self.buffer_view(),
            r@.len() == LEN,
    {
        proof {
            use_type_invariant(&self);
        }
        self.buffer
    }
}

/// What `String::from_utf8_lossy` makes of a byte sequence.
pub uninterp spec fn utf8_lossy(b: Seq<u8>) -> Seq<char>;

/// Relies on String::from_utf8_lossy: the text depends on the bytes alone,
/// and no bytes give no text.
#[verifier::external_body]
fn from_utf8_lossy(b: &[u8]) -> (r: String)
    ensures
        r@ == utf8_lossy(b@),
        b@.len() == 0 ==> r@.len() == 0,
{
    String::from_utf8_lossy(b).into_owned()
}

} // verus!
