//! Reuse of buffers of one size and alignment class.
use vstd::prelude::*;

use std::collections::VecDeque;

use super::{zeros, Buffer};

verus! {

/// Idle buffers (by contents) and fresh allocations after one `take`, and
/// the contents of the buffer taken.
pub open spec fn take_model(idle: Seq<Seq<u8>>, allocations: nat, size: nat) -> (
    Seq<Seq<u8>>,
    nat,
    Seq<u8>,
) {
    if idle.len() > 0 {
        (idle.drop_first(), allocations, idle[0])
    } else {
        (idle, allocations + 1, zeros(size))
    }
}

/// Idle buffers and fresh allocations after `n` takes.
pub open spec fn takes(idle: Seq<Seq<u8>>, allocations: nat, size: nat, n: nat) -> (
    Seq<Seq<u8>>,
    nat,
)
    decreases n,
{
    if n == 0 {
        (idle, allocations)
    } else {
        let (i, a, _) = take_model(idle, allocations, size);
        takes(i, a, size, (n - 1) as nat)
    }
}

/// Idle buffers and fresh allocations after filling the pool up to
/// `amount` idle buffers.
pub open spec fn pre_allocate_model(idle: Seq<Seq<u8>>, allocations: nat, size: nat, amount: nat) -> (
    Seq<Seq<u8>>,
    nat,
) {
    if idle.len() < amount {
        let added = (amount - idle.len()) as nat;
        (idle + Seq::new(added, |i: int| zeros(size)), allocations + added)
    } else {
        (idle, allocations)
    }
}

/// Idle buffers, first to be taken first, of `SIZE` bytes and alignment
/// class `ALIGN`; counts the buffers it had to allocate.
pub struct BufferPool<const SIZE: usize, const ALIGN: usize> {
    buffers: VecDeque<Buffer<SIZE, ALIGN>>,
    allocations: u64,
}

impl BufferPool<0, 4096> {
    /// An empty pool of the page alignment class.
    pub fn new4k<const SIZE: usize>() -> (r: BufferPool<SIZE, 4096>)
        ensures
            r.wf(),
            r.idle() == Seq::<Seq<u8>>::empty(),
            r.allocations() == 0,
    {
        BufferPool::default()
    }
}

impl<const SIZE: usize, const ALIGN: usize> BufferPool<SIZE, ALIGN> {
    /// Contents of the idle buffers, first to be taken first.
    pub closed spec fn idle(&self) -> Seq<Seq<u8>> {
        self.buffers@.map_values(|b: Buffer<SIZE, ALIGN>| b@)
    }

    /// Buffers allocated by the pool so far.
    pub closed spec fn allocations(&self) -> nat {
        self.allocations as nat
    }

    /// Every idle buffer has `SIZE` bytes.
    pub closed spec fn wf(&self) -> bool {
        forall|i: int| 0 <= i < self.buffers@.len() ==> (#[trigger] self.buffers@[i])@.len() == SIZE
    }

    /// An empty pool.
    pub fn default() -> (r: Self)
        ensures
            r.wf(),
            r.idle() == Seq::<Seq<u8>>::empty(),
            r.allocations() == 0,
    {
        let r = BufferPool { buffers: VecDeque::new(), allocations: 0 };
        assert(r.idle() =~= Seq::<Seq<u8>>::empty());
        r
    }

    /// The idle buffers.
    pub fn buffer(&self) -> (r: &VecDeque<Buffer<SIZE, ALIGN>>)
        ensures
            r@.map_values(|b: Buffer<SIZE, ALIGN>| b@) == self.idle(),
    {
        &self.buffers
    }

    /// Number of buffers the pool has allocated.
    pub fn allocation_count(&self) -> (r: u64)
        ensures
            r == self.allocations(),
    {
        self.allocations
    }

    /// Allocates zero-filled buffers until `amount` are idle.
    pub fn pre_allocate(&mut self, amount: usize)
        requires
            old(self).wf(),
            old(self).allocations() + amount <= u64::MAX,
        ensures
            final(self).wf(),
            (final(self).idle(), final(self).allocations()) == pre_allocate_model(
                old(self).idle(),
                old(self).allocations(),
                SIZE as nat,
                amount as nat,
            ),
    {
        let start = self.buffers.len();
        self.buffers.reserve(amount);
        let mut n = start;
        while n < amount
            invariant
                self.wf(),
                start == old(self).idle().len(),
                start <= n <= amount || (amount < start && n == start),
                self.buffers@.len() == n,
                self.allocations() == old(self).allocations() + (n - start),
                old(self).allocations() + amount <= u64::MAX,
                self.idle() == old(self).idle() + Seq::new((n - start) as nat, |i: int| zeros(SIZE as nat)),
            decreases amount - n,
        {
            let ghost prev = self.idle();
            let b = Buffer::allocate_unchecked();
            self.buffers.push_back(b);
            self.allocations = self.allocations + 1;
            n = n + 1;
            assert(self.idle() =~= prev.push(zeros(SIZE as nat)));
            assert(self.idle() =~= old(self).idle() + Seq::new(
                (n - start) as nat,
                |i: int| zeros(SIZE as nat),
            ));
        }
        assert(amount <= start ==> self.idle() =~= old(self).idle());
    }

    /// The first idle buffer, contents as it was put back, or a fresh
    /// zero-filled buffer when none is idle.
    pub fn take(&mut self) -> (r: Buffer<SIZE, ALIGN>)
        requires
            old(self).wf(),
            old(self).allocations() < u64::MAX,
        ensures
            final(self).wf(),
            r@.len() == SIZE,
            (final(self).idle(), final(self).allocations(), r@) == take_model(
                old(self).idle(),
                old(self).allocations(),
                SIZE as nat,
            ),
    {
        match self.buffers.pop_front() {
            Some(buffer) => {
                assert(self.idle() =~= old(self).idle().drop_first());
                buffer
            },
            None => {
                self.allocations = self.allocations + 1;
                Buffer::allocate_unchecked()
            },
        }
    }

    /// Makes `buffer` idle, behind the buffers already idle.
    pub fn put(&mut self, buffer: Buffer<SIZE, ALIGN>)
        requires
            old(self).wf(),
            buffer@.len() == SIZE,
        ensures
            final(self).wf(),
            final(self).idle() == old(self).idle().push(buffer@),
            final(self).allocations() == old(self).allocations(),
    {
        self.buffers.push_back(buffer);
        assert(self.idle() =~= old(self).idle().push(buffer@));
    }
}

/// Taking no more buffers than are idle allocates nothing.
pub proof fn lemma_idle_takes_do_not_allocate(
    idle: Seq<Seq<u8>>,
    allocations: nat,
    size: nat,
    n: nat,
)
    requires
        idle.len() >= n,
    ensures
        takes(idle, allocations, size, n).1 == allocations,
    decreases n,
{
    if n > 0 {
        lemma_idle_takes_do_not_allocate(idle.drop_first(), allocations, size, (n - 1) as nat);
    }
}

/// After the pool is filled up to `amount` idle buffers, `amount` takes
/// allocate nothing.
pub proof fn lemma_pre_allocated_takes_do_not_allocate(
    idle: Seq<Seq<u8>>,
    allocations: nat,
    size: nat,
    amount: nat,
)
    ensures
        ({
            let (i, a) = pre_allocate_model(idle, allocations, size, amount);
            takes(i, a, size, amount).1 == a
        }),
{
    let (i, a) = pre_allocate_model(idle, allocations, size, amount);
    lemma_idle_takes_do_not_allocate(i, a, size, amount);
}

/// A buffer put into an empty pool is the next one taken, with its
/// contents as they were, and nothing is allocated.
pub proof fn lemma_put_then_take(allocations: nat, size: nat, buffer: Seq<u8>)
    ensures
        take_model(Seq::<Seq<u8>>::empty().push(buffer), allocations, size) == (
            Seq::<Seq<u8>>::empty(),
            allocations,
            buffer,
        ),
{
    assert(Seq::<Seq<u8>>::empty().push(buffer).drop_first() =~= Seq::<Seq<u8>>::empty());
}

} // verus!
