//! A bump allocator over one fixed block of addresses, and the handles it
//! gives out.
//!
//! The arena does the bookkeeping of the block: which bytes are taken, and
//! where the next allocation starts. A handle records the address that the
//! arena gave it and owns the values placed there.

use vstd::prelude::*;

verus! {

/// `len` bytes of the address space, starting at `start`.
#[derive(Clone, Copy, Debug, PartialEq, Eq, Structural)]
pub struct Region {
    pub start: usize,
    pub len: usize,
}

impl Region {
    /// The address one past the last byte.
    pub open spec fn end(self) -> int {
        self.start + self.len
    }

    /// Whether the byte at `addr` belongs to the region.
    pub open spec fn has_byte(self, addr: int) -> bool {
        self.start <= addr < self.end()
    }

    /// No byte belongs to both regions.
    pub open spec fn disjoint(self, other: Region) -> bool {
        forall|addr: int| !(self.has_byte(addr) && other.has_byte(addr))
    }

    /// Every byte of `other` belongs to `self`.
    pub open spec fn covers(self, other: Region) -> bool {
        forall|addr: int| other.has_byte(addr) ==> self.has_byte(addr)
    }

    /// One of the regions ends where the other starts, or earlier.
    pub open spec fn apart(self, other: Region) -> bool {
        self.end() <= other.start || other.end() <= self.start
    }

    /// Regions that lie apart share no byte.
    pub proof fn lemma_apart_disjoint(self, other: Region)
        requires
            self.apart(other),
        ensures
            self.disjoint(other),
            other.disjoint(self),
    {
    }

    /// A region that ends where another starts, or earlier, shares no byte
    /// with it.
    pub proof fn lemma_ordered_disjoint(self, other: Region)
        requires
            self.end() <= other.start,
        ensures
            self.disjoint(other),
            other.disjoint(self),
    {
    }
}

/// A bump allocator: a block of `size` bytes at `base`, of which the first
/// `used` are taken. Allocation only ever moves `used` forward; nothing is
/// handed back.
pub struct MemoryArena {
    base: usize,
    size: usize,
    used: usize,
}

impl MemoryArena {
    /// Address of the first byte of the block.
    pub closed spec fn base(self) -> int {
        self.base as int
    }

    /// Number of bytes in the block.
    pub closed spec fn size(self) -> int {
        self.size as int
    }

    /// Number of bytes taken so far, counted from `base`.
    pub closed spec fn used(self) -> int {
        self.used as int
    }

    /// The taken part lies inside the block, and the block inside the
    /// address space.
    pub open spec fn wf(self) -> bool {
        &&& 0 <= self.used() <= self.size()
        &&& 0 <= self.base()
        &&& self.base() + self.size() <= usize::MAX
    }

    /// The whole block.
    pub open spec fn block(self) -> Region {
        Region { start: self.base() as usize, len: self.size() as usize }
    }

    /// Whether the region lies in the part of the block that is taken.
    pub open spec fn holds(self, region: Region) -> bool {
        self.base() <= region.start && region.end() <= self.base() + self.used()
    }

    /// Whether `n` more bytes fit.
    pub open spec fn can_alloc(self, n: int) -> bool {
        0 <= n && self.used() + n <= self.size()
    }

    /// The region that an allocation of `n` bytes returns.
    pub open spec fn next_region(self, n: usize) -> Region {
        Region { start: (self.base() + self.used()) as usize, len: n }
    }

    /// One successful allocation of `n` bytes: it takes `self` to `post` and
    /// returns `region`.
    pub open spec fn alloc_step(self, n: usize, post: MemoryArena, region: Region) -> bool {
        &&& self.can_alloc(n as int)
        &&& post.base() == self.base()
        &&& post.size() == self.size()
        &&& post.used() == self.used() + n
        &&& region == self.next_region(n)
    }

    /// Whether `post` is this arena with `n` more bytes taken.
    pub open spec fn advanced_by(self, post: MemoryArena, n: int) -> bool {
        &&& post.base() == self.base()
        &&& post.size() == self.size()
        &&& post.used() == self.used() + n
    }

    /// An arena over the `size` bytes at `base`, none of them taken.
    pub fn from_raw_parts(base: usize, size: usize) -> (arena: MemoryArena)
        requires
            base + size <= usize::MAX,
        ensures
            arena.wf(),
            arena.base() == base,
            arena.size() == size,
            arena.used() == 0,
    {
        MemoryArena { base, size, used: 0 }
    }

    /// Takes the next `size` bytes of the block.
    pub fn alloc_size(&mut self, size: usize) -> (region: Region)
        requires
            old(self).wf(),
            old(self).can_alloc(size as int),
        ensures
            final(self).wf(),
            old(self).alloc_step(size, *final(self), region),
    {
        let start: usize = self.base + self.used;
        self.used = self.used + size;
        Region { start, len: size }
    }

    /// Takes the next `size_of::<T>()` bytes of the block for a value of
    /// type `T` that is yet to come. `ArenaObject::from_raw` makes the
    /// handle once the value is there.
    pub fn alloc_uninit<T>(&mut self) -> (region: Region)
        requires
            old(self).wf(),
            old(self).can_alloc(vstd::layout::size_of::<T>() as int),
        ensures
            final(self).wf(),
            old(self).alloc_step(vstd::layout::size_of::<T>() as usize, *final(self), region),
    {
        let size: usize = core::mem::size_of::<T>();
        self.alloc_size(size)
    }

    /// Places `val` in the next `size_of::<T>()` bytes of the block.
    pub fn alloc_value<T>(&mut self, val: T) -> (object: ArenaObject<T>)
        requires
            old(self).wf(),
            old(self).can_alloc(vstd::layout::size_of::<T>() as int),
        ensures
            final(self).wf(),
            old(self).alloc_step(vstd::layout::size_of::<T>() as usize, *final(self), object.region()),
            object.value() == val,
    {
        let region = self.alloc_uninit::<T>();
        ArenaObject::from_raw(region.start, val)
    }

    /// Takes the next `len * size_of::<T>()` bytes of the block for `len`
    /// values of type `T` that are yet to come. `ArenaArray::from_raw_parts`
    /// makes the handle once the values are there.
    pub fn alloc_array_uninit<T>(&mut self, len: usize) -> (region: Region)
        requires
            old(self).wf(),
            old(self).can_alloc(len * vstd::layout::size_of::<T>()),
        ensures
            final(self).wf(),
            old(self).alloc_step(
                (len * vstd::layout::size_of::<T>()) as usize,
                *final(self),
                region,
            ),
    {
        let elem: usize = core::mem::size_of::<T>();
        assert(len * elem <= usize::MAX) by (nonlinear_arith)
            requires
                len * elem <= self.size(),
                self.size() <= usize::MAX,
        ;
        self.alloc_size(len * elem)
    }

    /// Places `len` clones of `val` in the next `len * size_of::<T>()` bytes
    /// of the block.
    pub fn alloc_array<T: Clone>(&mut self, val: T, len: usize) -> (array: ArenaArray<T>)
        requires
            old(self).wf(),
            old(self).can_alloc(len * vstd::layout::size_of::<T>()),
        ensures
            final(self).wf(),
            old(self).alloc_step((len * vstd::layout::size_of::<T>()) as usize, *final(self), array.region()),
            array@.len() == len,
            forall|i: int| 0 <= i < len ==> cloned(val, #[trigger] array@[i]),
    {
        let region = self.alloc_array_uninit::<T>(len);
        let mut items: Vec<T> = Vec::new();
        let mut i: usize = 0;
        while i < len
            invariant
                i <= len,
                items@.len() == i,
                forall|j: int| 0 <= j < i ==> cloned(val, #[trigger] items@[j]),
            decreases len - i,
        {
            items.push(val.clone());
            i += 1;
        }
        ArenaArray::from_raw_parts(region.start, items)
    }

    /// Carves a child arena of `size` bytes out of the block, starting at
    /// the first byte not yet taken.
    pub fn reserve(&mut self, size: usize) -> (child: MemoryArena)
        requires
            old(self).wf(),
            old(self).can_alloc(size as int),
        ensures
            final(self).wf(),
            child.wf(),
            child.used() == 0,
            old(self).alloc_step(size, *final(self), child.block()),
    {
        let region = self.alloc_size(size);
        MemoryArena::from_raw_parts(region.start, region.len)
    }

    /// Number of bytes not yet taken.
    pub fn remaining(&self) -> (n: usize)
        requires
            self.wf(),
        ensures
            n == self.size() - self.used(),
    {
        self.size - self.used
    }
}

/// A run of successful allocations from one arena: `states[i]` is the arena
/// before the `i`-th of them and `states[i + 1]` after it, `sizes[i]` the
/// number of bytes asked for and `regions[i]` the region returned.
pub open spec fn alloc_trace(
    states: Seq<MemoryArena>,
    sizes: Seq<usize>,
    regions: Seq<Region>,
) -> bool {
    &&& states.len() == sizes.len() + 1
    &&& regions.len() == sizes.len()
    &&& forall|i: int|
        0 <= i < sizes.len() ==> (#[trigger] states[i]).alloc_step(
            sizes[i],
            states[i + 1],
            regions[i],
        )
}

/// Over any run of successful allocations the block stays where it is, the
/// count of taken bytes never goes down and never passes the size of the
/// block.
pub proof fn lemma_used_monotonic(
    states: Seq<MemoryArena>,
    sizes: Seq<usize>,
    regions: Seq<Region>,
    i: int,
    j: int,
)
    requires
        alloc_trace(states, sizes, regions),
        states[0].wf(),
        0 <= i <= j < states.len(),
    ensures
        states[j].wf(),
        states[j].base() == states[i].base(),
        states[j].size() == states[i].size(),
        states[i].used() <= states[j].used() <= states[j].size(),
    decreases j - i,
{
    lemma_trace_wf(states, sizes, regions, j);
    if i < j {
        lemma_used_monotonic(states, sizes, regions, i, j - 1);
        assert(states[j - 1].alloc_step(sizes[j - 1], states[j - 1 + 1], regions[j - 1]));
    }
}

/// Every state of a run that starts well-formed is well-formed, on the
/// block it started with.
proof fn lemma_trace_wf(
    states: Seq<MemoryArena>,
    sizes: Seq<usize>,
    regions: Seq<Region>,
    j: int,
)
    requires
        alloc_trace(states, sizes, regions),
        states[0].wf(),
        0 <= j < states.len(),
    ensures
        states[j].wf(),
        states[j].base() == states[0].base(),
        states[j].size() == states[0].size(),
        states[0].used() <= states[j].used(),
    decreases j,
{
    if 0 < j {
        lemma_trace_wf(states, sizes, regions, j - 1);
        assert(states[j - 1].alloc_step(sizes[j - 1], states[j - 1 + 1], regions[j - 1]));
    }
}

/// Every region that a run of successful allocations returns lies in the
/// block, in the part that was free when the run began.
pub proof fn lemma_allocation_in_block(
    states: Seq<MemoryArena>,
    sizes: Seq<usize>,
    regions: Seq<Region>,
    i: int,
)
    requires
        alloc_trace(states, sizes, regions),
        states[0].wf(),
        0 <= i < regions.len(),
    ensures
        states[0].base() + states[0].used() <= regions[i].start,
        regions[i].end() <= states[0].base() + states[0].size(),
        regions[i].start == states[i].base() + states[i].used(),
        regions[i].end() == states[i + 1].base() + states[i + 1].used(),
        states[0].block().covers(regions[i]),
{
    lemma_trace_wf(states, sizes, regions, i);
    lemma_trace_wf(states, sizes, regions, i + 1);
    assert(states[i].alloc_step(sizes[i], states[i + 1], regions[i]));
}

/// The regions that any two allocations of a run return share no byte: the
/// earlier one ends before the later one starts.
pub proof fn lemma_allocations_disjoint(
    states: Seq<MemoryArena>,
    sizes: Seq<usize>,
    regions: Seq<Region>,
    i: int,
    j: int,
)
    requires
        alloc_trace(states, sizes, regions),
        states[0].wf(),
        0 <= i < j < regions.len(),
    ensures
        regions[i].end() <= regions[j].start,
        regions[i].disjoint(regions[j]),
        regions[j].disjoint(regions[i]),
{
    lemma_allocation_in_block(states, sizes, regions, i);
    lemma_allocation_in_block(states, sizes, regions, j);
    lemma_used_monotonic(states, sizes, regions, i + 1, j);
    regions[i].lemma_ordered_disjoint(regions[j]);
}

/// A reservation and what its parent allocates afterwards share no byte:
/// neither the child's block as a whole, nor any region that the child
/// gives out of it.
pub proof fn lemma_reservation_disjoint(
    parent: MemoryArena,
    size: usize,
    parent_after: MemoryArena,
    child: MemoryArena,
    child_states: Seq<MemoryArena>,
    child_sizes: Seq<usize>,
    child_regions: Seq<Region>,
    parent_states: Seq<MemoryArena>,
    parent_sizes: Seq<usize>,
    parent_regions: Seq<Region>,
    i: int,
    j: int,
)
    requires
        parent.wf(),
        child.wf(),
        parent.alloc_step(size, parent_after, child.block()),
        alloc_trace(child_states, child_sizes, child_regions),
        child_states[0] == child,
        alloc_trace(parent_states, parent_sizes, parent_regions),
        parent_states[0] == parent_after,
        0 <= i < child_regions.len(),
        0 <= j < parent_regions.len(),
    ensures
        child.block().end() <= parent_regions[j].start,
        child.block().disjoint(parent_regions[j]),
        child_regions[i].disjoint(parent_regions[j]),
        parent_regions[j].disjoint(child_regions[i]),
{
    lemma_allocation_in_block(child_states, child_sizes, child_regions, i);
    lemma_allocation_in_block(parent_states, parent_sizes, parent_regions, j);
    child.block().lemma_ordered_disjoint(parent_regions[j]);
    child_regions[i].lemma_ordered_disjoint(parent_regions[j]);
}

/// One value placed in an arena.
pub struct ArenaObject<T> {
    addr: usize,
    value: T,
}

impl<T> ArenaObject<T> {
    /// Address of the first byte of the value.
    pub closed spec fn addr(&self) -> usize {
        self.addr
    }

    /// The value held.
    pub closed spec fn value(&self) -> T {
        self.value
    }

    /// The bytes that the value takes up.
    pub open spec fn region(&self) -> Region {
        Region { start: self.addr(), len: vstd::layout::size_of::<T>() as usize }
    }

    /// The handle for `value` placed at `addr`.
    pub fn from_raw(addr: usize, value: T) -> (object: ArenaObject<T>)
        ensures
            object.addr() == addr,
            object.value() == value,
    {
        ArenaObject { addr, value }
    }

    /// Address of the first byte of the value.
    pub fn address(&self) -> (addr: usize)
        ensures
            addr == self.addr(),
    {
        self.addr
    }

    /// The value, to read.
    pub fn as_ref(&self) -> (value: &T)
        ensures
            *value == self.value(),
    {
        &self.value
    }

    /// The value, to change. The address stays.
    pub fn as_mut(&mut self) -> (value: &mut T)
        ensures
            *value == old(self).value(),
            final(self).value() == *final(value),
            final(self).addr() == old(self).addr(),
    {
        &mut self.value
    }
}

impl<T> core::ops::Deref for ArenaObject<T> {
    type Target = T;

    fn deref(&self) -> (value: &T)
        ensures
            *value == self.value(),
    {
        &self.value
    }
}

/// A run of values of one type placed in an arena.
pub struct ArenaArray<T> {
    addr: usize,
    items: Vec<T>,
}

impl<T> View for ArenaArray<T> {
    type V = Seq<T>;

    closed spec fn view(&self) -> Seq<T> {
        self.items@
    }
}

impl<T> ArenaArray<T> {
    /// Address of the first byte of the first element.
    pub closed spec fn addr(&self) -> usize {
        self.addr
    }

    /// The bytes that the elements take up.
    pub open spec fn region(&self) -> Region {
        Region { start: self.addr(), len: (self@.len() * vstd::layout::size_of::<T>()) as usize }
    }

    /// The array of no elements, at address 0.
    pub fn empty() -> (array: ArenaArray<T>)
        ensures
            array@ == Seq::<T>::empty(),
            array.addr() == 0,
    {
        ArenaArray { addr: 0, items: Vec::new() }
    }

    /// The handle for `items` placed at `addr`.
    pub fn from_raw_parts(addr: usize, items: Vec<T>) -> (array: ArenaArray<T>)
        ensures
            array@ == items@,
            array.addr() == addr,
    {
        ArenaArray { addr, items }
    }

    /// Address of the first byte of the first element.
    pub fn address(&self) -> (addr: usize)
        ensures
            addr == self.addr(),
    {
        self.addr
    }

    /// Number of elements.
    pub fn len(&self) -> (n: usize)
        ensures
            n == self@.len(),
    {
        self.items.len()
    }

    /// A cursor that hands out the elements in order, to read.
    pub fn iter(&self) -> (it: ArenaArrayIter<'_, T>)
        ensures
            it.array() == self,
            it.position() == 0,
    {
        ArenaArrayIter { array: self, index: 0 }
    }

    /// A cursor that hands out the elements in order, to change. When the
    /// cursor is dropped the array holds what was written through it.
    pub fn iter_mut(&mut self) -> (it: ArenaArrayIterMut<'_, T>)
        ensures
            it.index == 0,
            *it.array == *old(self),
            *final(it.array) == *final(self),
    {
        ArenaArrayIterMut { array: self, index: 0 }
    }

    /// The element at `index`, or `None` when there is none.
    pub fn get(&self, index: usize) -> (element: Option<&T>)
        ensures
            index < self@.len() ==> element == Some(&self@[index as int]),
            index >= self@.len() ==> element.is_none(),
    {
        if index >= self.items.len() {
            return None;
        }
        Some(self.get_unchecked(index))
    }

    /// The element at `index`, to change, or `None` when there is none.
    /// What is written through the reference is the only change to the
    /// array.
    pub fn get_mut(&mut self, index: usize) -> (element: Option<&mut T>)
        ensures
            final(self).addr() == old(self).addr(),
            index >= old(self)@.len() ==> element.is_none() && final(self)@ == old(self)@,
            index < old(self)@.len() ==> element.is_some()
                && *element.unwrap() == old(self)@[index as int]
                && final(self)@ == old(self)@.update(index as int, *final(element.unwrap())),
    {
        if index >= self.items.len() {
            return None;
        }
        Some(self.get_unchecked_mut(index))
    }

    /// The element at `index`, which the caller has shown to exist.
    pub fn get_unchecked(&self, index: usize) -> (element: &T)
        requires
            index < self@.len(),
        ensures
            *element == self@[index as int],
    {
        &self.items[index]
    }

    /// The element at `index`, which the caller has shown to exist, to
    /// change.
    pub fn get_unchecked_mut(&mut self, index: usize) -> (element: &mut T)
        requires
            index < old(self)@.len(),
        ensures
            *element == old(self)@[index as int],
            final(self)@ == old(self)@.update(index as int, *final(element)),
            final(self).addr() == old(self).addr(),
    {
        &mut self.items[index]
    }
}

/// A cursor over the elements of an array, front to back.
pub struct ArenaArrayIter<'a, T> {
    array: &'a ArenaArray<T>,
    index: usize,
}

impl<'a, T> ArenaArrayIter<'a, T> {
    /// The array walked over.
    pub closed spec fn array(&self) -> &'a ArenaArray<T> {
        self.array
    }

    /// Number of elements handed out so far.
    pub closed spec fn position(&self) -> int {
        self.index as int
    }

    /// The next element, or `None` once all were handed out.
    pub fn next(&mut self) -> (element: Option<&'a T>)
        ensures
            final(self).array() == old(self).array(),
            old(self).position() < old(self).array()@.len() ==> {
                &&& element == Some(&old(self).array()@[old(self).position()])
                &&& final(self).position() == old(self).position() + 1
            },
            old(self).position() >= old(self).array()@.len() ==> {
                &&& element.is_none()
                &&& final(self).position() == old(self).position()
            },
    {
        if self.index >= self.array.len() {
            return None;
        }
        let item = self.array.get_unchecked(self.index);
        self.index += 1;
        Some(item)
    }
}

/// A cursor over the elements of an array, front to back, through which
/// they can be changed. `array` is the array walked over, `index` the
/// number of elements handed out so far.
pub struct ArenaArrayIterMut<'a, T> {
    pub array: &'a mut ArenaArray<T>,
    pub index: usize,
}

impl<'a, T> ArenaArrayIterMut<'a, T> {
    /// The next element, to change, or `None` once all were handed out.
    /// What is written through the reference is the only change to the
    /// array.
    pub fn next(&mut self) -> (element: Option<&mut T>)
        ensures
            *final(final(self).array) == *final(old(self).array),
            final(self).array.addr() == old(self).array.addr(),
            old(self).index >= old(self).array@.len() ==> {
                &&& element.is_none()
                &&& final(self).index == old(self).index
                &&& final(self).array@ == old(self).array@
            },
            old(self).index < old(self).array@.len() ==> {
                &&& element.is_some()
                &&& *element.unwrap() == old(self).array@[old(self).index as int]
                &&& final(self).index == old(self).index + 1
                &&& final(self).array@ == old(self).array@.update(
                    old(self).index as int,
                    *final(element.unwrap()),
                )
            },
    {
        if self.index >= self.array.len() {
            return None;
        }
        let i: usize = self.index;
        self.index += 1;
        Some(self.array.get_unchecked_mut(i))
    }
}

} // verus!
