//! Fixed-size byte blocks compared, ordered and hashed by their content.
use vstd::prelude::*;

verus! {

/// `N` bytes, always fully initialized.
#[derive(Clone, Copy, Debug, Eq, Hash, PartialOrd, Ord)]
pub struct AlignedBlock<const N: usize>(pub [u8; N]);

/// A 16-byte block.
pub type Aligned16 = AlignedBlock<16>;

/// A 32-byte block.
pub type Aligned32 = AlignedBlock<32>;

/// A 64-byte block.
pub type Aligned64 = AlignedBlock<64>;

/// Equal when every byte is equal.
impl<const N: usize> PartialEq for AlignedBlock<N> {
    fn eq(&self, other: &Self) -> (r: bool) {
        let mut i: usize = 0;
        while i < N
            invariant
                i <= N,
                forall|j: int| 0 <= j < i ==> self.0[j] == other.0[j],
            decreases N - i,
        {
            if self.0[i] != other.0[i] {
                return false;
            }
            i = i + 1;
        }
        assert(self.0@ =~= other.0@);
        true
    }
}

impl<const N: usize> vstd::std_specs::cmp::PartialEqSpecImpl for AlignedBlock<N> {
    open spec fn obeys_eq_spec() -> bool {
        true
    }

    open spec fn eq_spec(&self, other: &Self) -> bool {
        self.0@ == other.0@
    }
}

/// The block holding the lanes of `vector`.
impl<const N: usize> From<[u8; N]> for AlignedBlock<N> {
    fn from(vector: [u8; N]) -> Self {
        AlignedBlock(vector)
    }
}

impl<const N: usize> vstd::std_specs::convert::FromSpecImpl<[u8; N]> for AlignedBlock<N> {
    open spec fn obeys_from_spec() -> bool {
        true
    }

    open spec fn from_spec(vector: [u8; N]) -> Self {
        AlignedBlock(vector)
    }
}

/// The bytes of the block.
impl<const N: usize> core::ops::Deref for AlignedBlock<N> {
    type Target = [u8; N];

    fn deref(&self) -> &[u8; N] {
        &self.0
    }
}

impl<const N: usize> AlignedBlock<N> {
    /// The zero-filled block.
    pub fn default() -> (r: Self)
        ensures
            r.0@ == Seq::new(N as nat, |i: int| 0u8),
    {
        let r = AlignedBlock([0u8; N]);
        assert(r.0@ =~= Seq::new(N as nat, |i: int| 0u8));
        r
    }

    /// The block as lanes.
    pub fn to_simd(self) -> (r: [u8; N])
        ensures
            r == self.0,
    {
        self.0
    }

    /// The bytes of `slice` followed by zeros.
    pub fn from_slice(slice: &[u8]) -> (r: Self)
        requires
            slice@.len() <= N,
        ensures
            r.0@ == slice@ + Seq::new((N - slice@.len()) as nat, |i: int| 0u8),
    {
        let mut array = [0u8; N];
        let mut i: usize = 0;
        while i < slice.len()
            invariant
                slice@.len() <= N,
                i <= slice@.len(),
                forall|j: int| 0 <= j < i ==> array[j] == slice@[j],
                forall|j: int| i <= j < N ==> array[j] == 0,
            decreases slice@.len() - i,
        {
            array[i] = slice[i];
            i = i + 1;
        }
        assert(array@ =~= slice@ + Seq::new((N - slice@.len()) as nat, |i: int| 0u8));
        AlignedBlock(array)
    }
}

impl AlignedBlock<64> {
    /// The block as one 64-lane vector.
    pub fn load_vector(&self) -> (r: [u8; 64])
        ensures
            r == self.0,
    {
        self.0
    }

    /// Overwrites the block with `vector`.
    pub fn store_vector(&mut self, vector: [u8; 64])
        ensures
            final(self).0 == vector,
    {
        self.0 = vector;
    }
}

/// A block of one of the three widths.
#[derive(Clone, Copy, Debug, PartialEq, Eq, Hash)]
pub enum Aligned {
    Aligned16(Aligned16),
    Aligned32(Aligned32),
    Aligned64(Aligned64),
}

} // verus!
