//! Execution stacks and the pool that recycles them.
//!
//! A [`Stack`] is one region of memory on which a coroutine runs. Regions
//! are expensive to make, so a region whose coroutine is gone is kept in a
//! pool and handed out again to whoever asks for no more than it was made
//! for.

use vstd::prelude::*;
use context::stack::ProtectedFixedSizeStack;

verus! {

/// A region of stack memory with a guard page below it, as the `context`
/// crate allocates it. Nothing is known of what is inside.
#[verifier::external_type_specification]
#[verifier::external_body]
pub struct ExProtectedFixedSizeStack(ProtectedFixedSizeStack);

/// Why no stack could be made.
#[derive(Debug, Clone, Copy, PartialEq, Eq, Structural)]
pub enum StackError {
    /// More was asked for than the platform allows; the limit is given.
    ExceedsMaximumSize(usize),
    /// The operating system did not hand out the memory.
    OutOfMemory,
}

/// Asks `ProtectedFixedSizeStack::new` of the `context` crate for a region
/// of at least `size` bytes and reads the length of what was granted.
///
/// Whether a region is granted depends on the machine, and so does its
/// length. What is claimed is what the crate promises of every region: that
/// it holds at least the bytes asked for. The two errors of the crate are
/// handed on as they are, the second without the error of the operating
/// system in it.
#[verifier::external_body]
fn allocate(size: usize) -> (r: Result<(ProtectedFixedSizeStack, usize), StackError>)
    ensures
        r matches Ok((_, len)) ==> len >= size,
{
    match ProtectedFixedSizeStack::new(size) {
        Ok(memory) => {
            let len = memory.len();
            Ok((memory, len))
        },
        Err(context::stack::StackError::ExceedsMaximumSize(max)) => Err(
            StackError::ExceedsMaximumSize(max),
        ),
        Err(context::stack::StackError::IoError(_)) => Err(StackError::OutOfMemory),
    }
}

/// One region of stack memory, known by its number and by the size that was
/// asked for when it was made.
#[derive(Debug)]
pub struct Stack {
    id: u64,
    size: usize,
    capacity: usize,
    memory: ProtectedFixedSizeStack,
}

/// A stack as a mathematical value.
pub struct StackView {
    /// The number under which the region was first handed out.
    pub id: u64,
    /// How many bytes were asked for when the region was made; it holds at
    /// least as many.
    pub size: usize,
}

impl View for Stack {
    type V = StackView;

    closed spec fn view(&self) -> StackView {
        StackView { id: self.id, size: self.size }
    }
}

impl Stack {
    /// The region holds what was asked for.
    #[verifier::type_invariant]
    closed spec fn is_large_enough(&self) -> bool {
        self.capacity >= self.size
    }

    /// The number under which the region was first handed out.
    pub fn id(&self) -> (id: u64)
        ensures
            id == self@.id,
    {
        self.id
    }

    /// How many bytes were asked for when the region was made.
    pub fn size(&self) -> (size: usize)
        ensures
            size == self@.size,
    {
        self.size
    }

    /// How many bytes the region holds: at least as many as were asked for.
    pub fn capacity(&self) -> (capacity: usize)
        ensures
            capacity >= self@.size,
    {
        proof {
            use_type_invariant(self);
        }
        self.capacity
    }

    /// The region of memory that the stack is.
    pub closed spec fn region(&self) -> ProtectedFixedSizeStack {
        self.memory
    }

    /// The memory of the stack.
    pub fn memory(&self) -> (memory: &ProtectedFixedSizeStack)
        ensures
            *memory == self.region(),
    {
        &self.memory
    }
}

/// The free stacks of a pool, oldest first, and the count of regions that
/// were ever made for it.
pub struct PoolView {
    pub stacks: Seq<StackView>,
    pub allocated: nat,
}

impl PoolView {
    /// A pool that holds nothing and has made nothing.
    pub open spec fn empty() -> PoolView {
        PoolView { stacks: Seq::empty(), allocated: 0 }
    }

    /// Every free stack was made by this pool, and no two are the same.
    pub open spec fn wf(self) -> bool {
        &&& self.allocated <= u64::MAX
        &&& forall|i: int| 0 <= i < self.stacks.len() ==> (#[trigger] self.stacks[i]).id < self.allocated
        &&& forall|i: int, j: int|
            0 <= i < j < self.stacks.len() ==> (#[trigger] self.stacks[i]).id != (#[trigger] self.stacks[j]).id
    }

    /// Some free stack has the number `id`.
    pub open spec fn holds(self, id: u64) -> bool {
        exists|i: int| 0 <= i < self.stacks.len() && (#[trigger] self.stacks[i]).id == id
    }

    /// Some free stack is at least `size` bytes large.
    pub open spec fn has_fit(self, size: usize) -> bool {
        exists|i: int| 0 <= i < self.stacks.len() && (#[trigger] self.stacks[i]).size >= size
    }

    /// The stack at `i` is large enough and no earlier one is.
    pub open spec fn fits_first_at(self, size: usize, i: int) -> bool {
        &&& 0 <= i < self.stacks.len()
        &&& self.stacks[i].size >= size
        &&& forall|j: int| 0 <= j < i ==> (#[trigger] self.stacks[j]).size < size
    }

    /// The position of the oldest free stack that is large enough.
    pub open spec fn first_fit(self, size: usize) -> int {
        choose|i: int| self.fits_first_at(size, i)
    }

    /// The stack that a request for `size` bytes is served with: the oldest
    /// free one that is large enough, else a new one of exactly that size.
    pub open spec fn taken(self, size: usize) -> StackView {
        if self.has_fit(size) {
            self.stacks[self.first_fit(size)]
        } else {
            StackView { id: self.allocated as u64, size: size }
        }
    }

    /// The pool after it has served a request for `size` bytes.
    pub open spec fn after_take(self, size: usize) -> PoolView {
        if self.has_fit(size) {
            PoolView { stacks: self.stacks.remove(self.first_fit(size)), allocated: self.allocated }
        } else {
            PoolView { stacks: self.stacks, allocated: self.allocated + 1 }
        }
    }

    /// The pool after `stack` has come back to it.
    pub open spec fn after_give(self, stack: StackView) -> PoolView {
        PoolView { stacks: self.stacks.push(stack), allocated: self.allocated }
    }

    /// Where a stack is large enough, the oldest such stack exists and is the
    /// only position that `fits_first_at` accepts.
    pub proof fn lemma_first_fit(self, size: usize)
        requires
            self.has_fit(size),
        ensures
            self.fits_first_at(size, self.first_fit(size)),
            forall|i: int| self.fits_first_at(size, i) ==> i == self.first_fit(size),
    {
        let w = choose|i: int| 0 <= i < self.stacks.len() && (#[trigger] self.stacks[i]).size >= size;
        self.lemma_least_fit(size, w);
        let f = self.first_fit(size);
        assert forall|i: int| self.fits_first_at(size, i) implies i == f by {
            if i < f {
                assert(self.stacks[i].size < size);
            } else if f < i {
                assert(self.stacks[f].size < size);
            }
        }
    }

    /// Below any stack that is large enough lies a first one.
    proof fn lemma_least_fit(self, size: usize, w: int)
        requires
            0 <= w < self.stacks.len(),
            self.stacks[w].size >= size,
        ensures
            exists|i: int| self.fits_first_at(size, i),
        decreases w,
    {
        if exists|j: int| 0 <= j < w && (#[trigger] self.stacks[j]).size >= size {
            let j = choose|j: int| 0 <= j < w && (#[trigger] self.stacks[j]).size >= size;
            self.lemma_least_fit(size, j);
        } else {
            assert(self.fits_first_at(size, w));
        }
    }

    /// Serving a request keeps the pool well formed, and the stack that
    /// leaves is large enough and no longer free.
    pub proof fn lemma_take(self, size: usize)
        requires
            self.wf(),
            self.allocated < u64::MAX,
        ensures
            self.after_take(size).wf(),
            self.taken(size).size >= size,
            self.taken(size).id < self.after_take(size).allocated,
            !self.after_take(size).holds(self.taken(size).id),
            forall|id: u64| self.after_take(size).holds(id) ==> self.holds(id),
            forall|id: u64| self.holds(id) && id != self.taken(size).id ==> self.after_take(size).holds(id),
            self.holds(self.taken(size).id) <==> self.has_fit(size),
            self.after_take(size).allocated >= self.allocated,
            forall|id: u64| id < self.allocated && !self.holds(id) ==> id != self.taken(size).id,
    {
        let after = self.after_take(size);
        if self.has_fit(size) {
            self.lemma_first_fit(size);
            let f = self.first_fit(size);
            assert forall|i: int| 0 <= i < after.stacks.len() implies
                (#[trigger] after.stacks[i]).id
                < after.allocated by {
                if i < f {
                    assert(after.stacks[i] == self.stacks[i]);
                } else {
                    assert(after.stacks[i] == self.stacks[i + 1]);
                }
            }
            assert forall|i: int, j: int| 0 <= i < j < after.stacks.len() implies
                (#[trigger] after.stacks[i]).id != (#[trigger] after.stacks[j]).id by {
                let a = if i < f { i } else { i + 1 };
                let b = if j < f { j } else { j + 1 };
                assert(after.stacks[i] == self.stacks[a]);
                assert(after.stacks[j] == self.stacks[b]);
            }
            assert forall|i: int| 0 <= i < after.stacks.len() implies
                (#[trigger] after.stacks[i]).id
                != self.stacks[f].id by {
                let a = if i < f { i } else { i + 1 };
                assert(after.stacks[i] == self.stacks[a]);
            }
            assert forall|id: u64| after.holds(id) implies self.holds(id) by {
                let i = choose|i: int| 0 <= i < after.stacks.len() && (#[trigger] after.stacks[i]).id == id;
                let a = if i < f { i } else { i + 1 };
                assert(after.stacks[i] == self.stacks[a]);
            }
            assert forall|id: u64| self.holds(id) && id != self.taken(size).id implies
                after.holds(id) by {
                let a = choose|a: int| 0 <= a < self.stacks.len() && (#[trigger] self.stacks[a]).id == id;
                assert(a != f);
                let i = if a < f { a } else { a - 1 };
                assert(after.stacks[i] == self.stacks[a]);
                assert(0 <= i < after.stacks.len() && after.stacks[i].id == id);
            }
            assert(self.stacks[f].id == self.taken(size).id);
        } else {
            assert forall|id: u64| self.holds(id) implies
                id != self.taken(size).id && after.holds(id) by {
                let a = choose|a: int| 0 <= a < self.stacks.len() && (#[trigger] self.stacks[a]).id == id;
                assert(self.stacks[a].id < self.allocated);
                assert(after.stacks[a].id == id);
            }
        }
    }

    /// Taking back a stack that the pool made and that is not free keeps the
    /// pool well formed.
    pub proof fn lemma_give(self, stack: StackView)
        requires
            self.wf(),
            stack.id < self.allocated,
            !self.holds(stack.id),
        ensures
            self.after_give(stack).wf(),
            self.after_give(stack).holds(stack.id),
            forall|id: u64| self.after_give(stack).holds(id) <==> (self.holds(id) || id == stack.id),
            forall|size: usize| size <= stack.size ==> self.after_give(stack).has_fit(size),
    {
        let after = self.after_give(stack);
        let n = self.stacks.len() as int;
        assert(after.stacks[n] == stack);
        assert forall|i: int, j: int| 0 <= i < j < after.stacks.len() implies
            (#[trigger] after.stacks[i]).id != (#[trigger] after.stacks[j]).id by {
            assert(after.stacks[i] == self.stacks[i]);
            if j < n {
                assert(after.stacks[j] == self.stacks[j]);
            }
        }
        assert forall|id: u64| after.holds(id) <==> (self.holds(id) || id == stack.id) by {
            if after.holds(id) {
                let i = choose|i: int| 0 <= i < after.stacks.len() && (#[trigger] after.stacks[i]).id == id;
                if i < n {
                    assert(after.stacks[i] == self.stacks[i]);
                }
            }
            if self.holds(id) {
                let i = choose|i: int| 0 <= i < self.stacks.len() && (#[trigger] self.stacks[i]).id == id;
                assert(after.stacks[i] == self.stacks[i]);
            }
        }
    }
}

/// The free stacks of one scheduler.
pub struct StackPool {
    stacks: Vec<Stack>,
    allocated: u64,
}

impl View for StackPool {
    type V = PoolView;

    closed spec fn view(&self) -> PoolView {
        PoolView {
            stacks: Seq::new(self.stacks@.len(), |i: int| self.stacks@[i]@),
            allocated: self.allocated as nat,
        }
    }
}

impl StackPool {
    /// A pool without any stack.
    pub fn new() -> (pool: StackPool)
        ensures
            pool@ == PoolView::empty(),
    {
        let pool = StackPool { stacks: Vec::new(), allocated: 0 };
        proof {
            assert(pool@.stacks =~= PoolView::empty().stacks);
        }
        pool
    }

    /// How many stacks were made so far, as opposed to reused.
    pub fn allocations(&self) -> (n: u64)
        ensures
            n == self@.allocated,
    {
        self.allocated
    }

    /// How many stacks are free.
    pub fn free(&self) -> (n: usize)
        ensures
            n == self@.stacks.len(),
    {
        self.stacks.len()
    }

    /// Whether a free stack has the number `id`.
    pub fn holds(&self, id: u64) -> (r: bool)
        ensures
            r == self@.holds(id),
    {
        let mut i: usize = 0;
        while i < self.stacks.len()
            invariant
                i <= self.stacks@.len(),
                forall|j: int| 0 <= j < i ==> (#[trigger] self@.stacks[j]).id != id,
            decreases self.stacks@.len() - i,
        {
            if self.stacks[i].id == id {
                assert(self@.stacks[i as int].id == id);
                return true;
            }
            i = i + 1;
        }
        false
    }

    /// Where the oldest free stack of at least `size` bytes lies.
    pub fn find(&self, size: usize) -> (r: Option<usize>)
        ensures
            r is Some == self@.has_fit(size),
            r matches Some(i) ==> i == self@.first_fit(size) && self@.fits_first_at(size, i as int),
    {
        let mut i: usize = 0;
        while i < self.stacks.len()
            invariant
                i <= self.stacks@.len(),
                forall|j: int| 0 <= j < i ==> (#[trigger] self@.stacks[j]).size < size,
            decreases self.stacks@.len() - i,
        {
            if self.stacks[i].size >= size {
                proof {
                    assert(self@.stacks[i as int].size >= size);
                    assert(self@.fits_first_at(size, i as int));
                    self@.lemma_first_fit(size);
                }
                return Some(i);
            }
            i = i + 1;
        }
        None
    }

    /// Takes into the books what the allocator has answered to a request for
    /// `size` bytes: a region that was granted gets the next number, and a
    /// refusal is handed on and changes nothing.
    fn enter(
        &mut self,
        size: usize,
        made: Result<(ProtectedFixedSizeStack, usize), StackError>,
    ) -> (r: Result<Stack, StackError>)
        requires
            old(self)@.allocated < u64::MAX,
            made matches Ok((_, len)) ==> len >= size,
        ensures
            match made {
                Ok(_) => r matches Ok(stack) && stack@ == (StackView {
                    id: old(self)@.allocated as u64,
                    size: size,
                }) && final(self)@ == (PoolView {
                    stacks: old(self)@.stacks,
                    allocated: old(self)@.allocated + 1,
                }),
                Err(e) => r == Err::<Stack, StackError>(e) && final(self)@ == old(self)@,
            },
    {
        match made {
            Ok((memory, len)) => {
                let id = self.allocated;
                self.allocated = self.allocated + 1;
                proof {
                    assert(self@.stacks =~= old(self)@.stacks);
                }
                Ok(Stack { id: id, size: size, capacity: len, memory: memory })
            },
            Err(e) => Err(e),
        }
    }

    /// Hands out a stack of at least `size` bytes: the oldest free one that
    /// is large enough, or else a new one made for exactly `size` bytes.
    ///
    /// Where a free stack fits, the call succeeds. Where none does, a new
    /// region has to be made, and the call fails if the machine refuses it;
    /// the pool is then as it was.
    pub fn take_stack(&mut self, size: usize) -> (r: Result<Stack, StackError>)
        requires
            old(self)@.allocated < u64::MAX,
        ensures
            old(self)@.has_fit(size) ==> r is Ok,
            r matches Ok(stack) ==> stack@ == old(self)@.taken(size) && final(self)@ == old(
                self,
            )@.after_take(size),
            r is Err ==> final(self)@ == old(self)@,
    {
        match self.find(size) {
            Some(i) => {
                let stack = self.stacks.remove(i);
                proof {
                    assert(self@.stacks =~= old(self)@.after_take(size).stacks);
                }
                Ok(stack)
            },
            None => self.enter(size, allocate(size)),
        }
    }

    /// Puts a stack back among the free ones.
    pub fn give_stack(&mut self, stack: Stack)
        ensures
            final(self)@ == old(self)@.after_give(stack@),
    {
        self.stacks.push(stack);
        proof {
            assert(self@.stacks =~= old(self)@.after_give(stack@).stacks);
        }
    }
}

} // verus!
