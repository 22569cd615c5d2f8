//! The dense heap: an arena of slots addressed by stable indices.
//!
//! The arena owns a contiguous, append-only-growable sequence of slots
//! and a single free-list head index. Allocation pops the free list or,
//! when the list is exhausted, grows the sequence by one slot. Releasing
//! a handle pushes its slot onto the front of the free list, so slots are
//! reused most-recently-freed first.

use vstd::prelude::*;
use vstd::pervasive::unreached;

verus! {

/// One storage cell of the arena's backing sequence.
///
/// Exactly one slot is `Edge` at any time: the sentinel one past the
/// densely packed region. When the free-list head points at the `Edge`,
/// the free list is exhausted and the next allocation grows the storage.
pub enum Slot<T> {
    /// The sentinel; always the slot with the highest index.
    Edge,
    /// A released slot; `next` chains to the slot freed before this one,
    /// or to the `Edge` if this was the first slot ever freed.
    Free { next: usize },
    /// A slot currently owned by exactly one live handle.
    Occupied { value: T },
    /// A slot whose value was extracted by `into_inner` but which has not
    /// yet been spliced back into the free list.
    Moved,
}

/// The mathematical model of a [`DHeap`]: the slot sequence, the
/// free-list head, the indices of the free slots in pop order, and the
/// reserved capacity that the checked allocation path refuses to exceed.
pub struct HeapModel<T> {
    pub slots: Seq<Slot<T>>,
    pub head: int,
    pub free: Seq<int>,
    pub reserved: int,
}

impl<T> HeapModel<T> {
    /// Well-formedness: one `Edge` sentinel at the highest index, the head
    /// on the first free slot (or on the sentinel when none is free), and
    /// `free` listing exactly the `Free` slots, without duplicates, in the
    /// order the free-list chain visits them; each `next` link goes to the
    /// following listed slot or to the `Edge`.
    pub open spec fn wf(self) -> bool {
        &&& 1 <= self.slots.len() <= usize::MAX
        &&& forall|i: int|
            #![trigger self.slots[i]]
            0 <= i < self.slots.len() ==> (self.slots[i] is Edge <==> i == self.slots.len() - 1)
        &&& self.head == if self.free.len() > 0 {
            self.free[0]
        } else {
            self.slots.len() - 1
        }
        &&& forall|j: int|
            #![trigger self.free[j]]
            0 <= j < self.free.len() ==> {
                &&& 0 <= self.free[j] < self.slots.len() - 1
                &&& self.slots[self.free[j]] matches Slot::Free { next }
                &&& next == if j + 1 < self.free.len() {
                    self.free[j + 1]
                } else {
                    self.slots.len() - 1
                }
            }
        &&& forall|j1: int, j2: int|
            #![trigger self.free[j1], self.free[j2]]
            0 <= j1 < j2 < self.free.len() ==> self.free[j1] != self.free[j2]
        &&& forall|i: int|
            #![trigger self.slots[i]]
            0 <= i < self.slots.len() && self.slots[i] is Free ==> self.free.contains(i)
    }

    /// The value stored at an occupied slot.
    pub open spec fn value_at(self, i: int) -> T {
        self.slots[i]->value
    }

    /// Whether the next allocation must grow the backing sequence: the
    /// head points at the `Edge` sentinel, so the free list is exhausted.
    pub open spec fn must_grow(self) -> bool {
        self.slots[self.head] is Edge
    }

    /// The arena after allocating `v`: the slot at the head is overwritten
    /// with `Occupied`. On the growth path the vacated sentinel slot is the
    /// target, a fresh `Edge` is appended, and the head moves one past it;
    /// on the reuse path the head follows the popped slot's `next` link.
    pub open spec fn allocate(self, v: T) -> HeapModel<T> {
        if self.must_grow() {
            HeapModel {
                slots: self.slots.push(Slot::Edge).update(self.head, Slot::Occupied { value: v }),
                head: self.slots.len() as int,
                free: self.free,
                reserved: self.reserved,
            }
        } else {
            HeapModel {
                slots: self.slots.update(self.head, Slot::Occupied { value: v }),
                head: self.slots[self.head]->next as int,
                free: self.free.drop_first(),
                reserved: self.reserved,
            }
        }
    }

    /// The arena after recycling slot `i`: the slot becomes `Free` chained
    /// to the old head, and the head now points at `i` — a push onto the
    /// front of the free list.
    pub open spec fn recycle(self, i: int) -> HeapModel<T> {
        HeapModel {
            slots: self.slots.update(i, Slot::Free { next: self.head as usize }),
            head: i,
            free: seq![i] + self.free,
            reserved: self.reserved,
        }
    }

    /// The arena after extracting the value of slot `i`: the slot becomes
    /// `Moved`; head and free list are untouched.
    pub open spec fn extract(self, i: int) -> HeapModel<T> {
        HeapModel {
            slots: self.slots.update(i, Slot::Moved),
            head: self.head,
            free: self.free,
            reserved: self.reserved,
        }
    }

    /// The arena after overwriting the value of occupied slot `i` with `v`.
    pub open spec fn write(self, i: int, v: T) -> HeapModel<T> {
        HeapModel {
            slots: self.slots.update(i, Slot::Occupied { value: v }),
            head: self.head,
            free: self.free,
            reserved: self.reserved,
        }
    }
}

/// Allocation preserves well-formedness. The backing sequence grows by one
/// exactly on the growth path; on the reuse path the first free slot is
/// consumed instead.
pub proof fn lemma_allocate_preserves_wf<T>(m: HeapModel<T>, v: T)
    requires
        m.wf(),
        m.must_grow() ==> m.slots.len() < usize::MAX,
    ensures
        m.allocate(v).wf(),
        m.allocate(v).slots.len() == m.slots.len() + (if m.must_grow() { 1int } else { 0int }),
        m.allocate(v).free.len() == m.free.len() - (if m.must_grow() { 0int } else { 1int }),
        m.allocate(v).slots[m.head] is Occupied,
        m.allocate(v).value_at(m.head) == v,
        !m.must_grow() ==> m.free.len() > 0 && m.allocate(v).free == m.free.drop_first(),
        m.must_grow() ==> m.free.len() == 0 && m.allocate(v).free == m.free,
{
    let m2 = m.allocate(v);
    if m.must_grow() {
        assert(m.head == m.slots.len() - 1);
        if m.free.len() > 0 {
            assert(m.slots[m.free[0]] is Free);
        }
        assert(m.free.len() == 0);
        assert forall|i: int| 0 <= i < m2.slots.len() && #[trigger] m2.slots[i] is Free implies
            m2.free.contains(i) by {
            if i < m.slots.len() - 1 {
                assert(m.slots[i] is Free);
            }
        }
    } else {
        assert(m.free.len() > 0 && m.head == m.free[0]) by {
            if m.free.len() == 0 {
                assert(m.slots[m.head] is Edge);
            }
        }
        assert forall|i: int| 0 <= i < m2.slots.len() implies (#[trigger] m2.slots[i] is Edge
            <==> i == m2.slots.len() - 1) by {
            assert(m.slots[i] is Edge <==> i == m.slots.len() - 1);
        }
        assert forall|j: int|
            #![trigger m2.free[j]]
            0 <= j < m2.free.len() implies {
                &&& 0 <= m2.free[j] < m2.slots.len() - 1
                &&& m2.slots[m2.free[j]] matches Slot::Free { next }
                &&& next == if j + 1 < m2.free.len() {
                    m2.free[j + 1]
                } else {
                    m2.slots.len() - 1
                }
            } by {
            assert(m2.free[j] == m.free[j + 1]);
            assert(m.free[j + 1] != m.free[0]);
        }
        assert forall|i: int| 0 <= i < m2.slots.len() && #[trigger] m2.slots[i] is Free implies
            m2.free.contains(i) by {
            assert(m.slots[i] is Free);
            let k = choose|k: int| 0 <= k < m.free.len() && m.free[k] == i;
            assert(m.free[k] == i);
            assert(k != 0);
            assert(m2.free[k - 1] == i);
        }
    }
}

/// Recycling an occupied or moved slot preserves well-formedness, keeps the
/// backing length, and pushes the slot onto the front of the free list.
pub proof fn lemma_recycle_preserves_wf<T>(m: HeapModel<T>, i: int)
    requires
        m.wf(),
        0 <= i < m.slots.len(),
        m.slots[i] is Occupied || m.slots[i] is Moved,
    ensures
        m.recycle(i).wf(),
        m.recycle(i).slots.len() == m.slots.len(),
        m.recycle(i).free.len() == m.free.len() + 1,
        m.recycle(i).head == i,
        m.recycle(i).slots[i] is Free,
{
    let m2 = m.recycle(i);
    assert(i != m.slots.len() - 1);
    assert forall|j: int| 0 <= j < m.free.len() implies #[trigger] m.free[j] != i by {
        assert(m.slots[m.free[j]] is Free);
    }
    assert forall|j: int|
        #![trigger m2.free[j]]
        0 <= j < m2.free.len() implies {
            &&& 0 <= m2.free[j] < m2.slots.len() - 1
            &&& m2.slots[m2.free[j]] matches Slot::Free { next }
            &&& next == if j + 1 < m2.free.len() {
                m2.free[j + 1]
            } else {
                m2.slots.len() - 1
            }
        } by {
        if j > 0 {
            assert(m2.free[j] == m.free[j - 1]);
            assert(m.free[j - 1] != i);
        }
    }
    assert forall|i2: int| 0 <= i2 < m2.slots.len() && #[trigger] m2.slots[i2] is Free implies
        m2.free.contains(i2) by {
        if i2 == i {
            assert(m2.free[0] == i2);
        } else {
            assert(m.slots[i2] is Free);
            let k = choose|k: int| 0 <= k < m.free.len() && m.free[k] == i2;
            assert(m2.free[k + 1] == i2);
        }
    }
}

/// A dense heap: a slab arena for values of one type.
///
/// Handles address slots by stable index, so growth of the backing
/// storage never invalidates an outstanding handle.
pub struct DHeap<T> {
    buffer: Vec<Slot<T>>,
    head: usize,
    reserved: usize,
    free_order: Ghost<Seq<int>>,
}

impl<T> View for DHeap<T> {
    type V = HeapModel<T>;

    closed spec fn view(&self) -> HeapModel<T> {
        HeapModel {
            slots: self.buffer@,
            head: self.head as int,
            free: self.free_order@,
            reserved: self.reserved as int,
        }
    }
}

impl<T> DHeap<T> {
    /// Creates a new arena able to hold `capacity` values plus the `Edge`
    /// sentinel without growing: `capacity + 1` slots are reserved. The
    /// sequence starts with the sentinel alone, so `size()` is 1.
    pub fn with_capacity(capacity: usize) -> (arena: DHeap<T>)
        requires
            1 < capacity < usize::MAX,
        ensures
            arena@.wf(),
            arena@.slots.len() == 1,
            arena@.slots[0] is Edge,
            arena@.head == 0,
            arena@.free.len() == 0,
            arena@.reserved == capacity + 1,
    {
        let mut buffer: Vec<Slot<T>> = Vec::with_capacity(capacity + 1);
        buffer.push(Slot::Edge);
        DHeap { buffer, head: 0, reserved: capacity + 1, free_order: Ghost(Seq::empty()) }
    }

    /// The current length of the backing sequence: the sentinel plus every
    /// slot ever brought into existence, whatever its state. Releasing
    /// values never decreases this count; only growth increases it.
    pub fn size(&self) -> (n: usize)
        ensures
            n == self@.slots.len(),
    {
        self.buffer.len()
    }

    /// The unchecked allocation path: pops the first free slot, or grows
    /// the backing sequence by one when the free list is exhausted, and
    /// stores `v` in the vacated slot. Growth may reallocate the backing
    /// storage, but handles address slots by stable index, so outstanding
    /// handles stay valid.
    pub fn unsafe_new(&mut self, v: T) -> (handle: DBox)
        requires
            old(self)@.wf(),
            old(self)@.must_grow() ==> old(self)@.slots.len() < usize::MAX,
        ensures
            final(self)@.wf(),
            final(self)@ == old(self)@.allocate(v),
            handle@ == old(self)@.head,
            final(self)@.slots[handle@] is Occupied,
            final(self)@.value_at(handle@) == v,
            final(self)@.slots.len() == old(self)@.slots.len() + (if old(self)@.must_grow() {
                1int
            } else {
                0int
            }),
    {
        let index = self.head;
        let (is_edge, next) = match &self.buffer[index] {
            Slot::Edge => (true, 0usize),
            Slot::Free { next } => (false, *next),
            _ => unreached(),
        };
        if is_edge {
            self.head = self.buffer.len();
            self.buffer.push(Slot::Edge);
        } else {
            self.head = next;
            self.free_order = Ghost(self.free_order@.drop_first());
        }
        self.buffer[index] = Slot::Occupied { value: v };
        proof {
            lemma_allocate_preserves_wf(old(self)@, v);
            assert(self@.slots =~= old(self)@.allocate(v).slots);
            assert(self@.free =~= old(self)@.allocate(v).free);
        }
        DBox { index }
    }

    /// The checked allocation path: refuses to allocate once the backing
    /// sequence has reached the reserved capacity, so it never grows the
    /// storage; otherwise it behaves exactly like `unsafe_new`.
    pub fn safe_new(&mut self, v: T) -> (result: Result<DBox, &'static str>)
        requires
            old(self)@.wf(),
        ensures
            final(self)@.wf(),
            result is Ok <==> old(self)@.slots.len() < old(self)@.reserved,
            result is Ok ==> final(self)@.slots.len() <= old(self)@.reserved,
            match result {
                Ok(handle) => {
                    &&& final(self)@ == old(self)@.allocate(v)
                    &&& handle@ == old(self)@.head
                    &&& final(self)@.slots[handle@] is Occupied
                    &&& final(self)@.value_at(handle@) == v
                },
                Err(msg) => {
                    &&& final(self)@ == old(self)@
                    &&& msg@ == "out of reserved memory!"@
                },
            },
    {
        if self.buffer.len() >= self.reserved {
            Err("out of reserved memory!")
        } else {
            Ok(self.unsafe_new(v))
        }
    }

    /// A shared reference to the value held by an occupied slot.
    pub fn get<'a>(&'a self, handle: &DBox) -> (value: &'a T)
        requires
            handle@ < self@.slots.len(),
            self@.slots[handle@] is Occupied,
        ensures
            *value == self@.value_at(handle@),
    {
        match &self.buffer[handle.index] {
            Slot::Occupied { value } => value,
            _ => unreached(),
        }
    }

    /// A mutable reference to the value held by an occupied slot. Only the
    /// value of that one slot can change through it; the slot stays
    /// occupied and the free list is untouched, so well-formedness is kept.
    pub fn get_mut<'a>(&'a mut self, handle: &DBox) -> (value: &'a mut T)
        requires
            handle@ < old(self)@.slots.len(),
            old(self)@.slots[handle@] is Occupied,
        ensures
            *value == old(self)@.value_at(handle@),
            final(self)@ == old(self)@.write(handle@, *final(value)),
            old(self)@.wf() ==> final(self)@.wf(),
    {
        match &mut self.buffer[handle.index] {
            Slot::Occupied { value } => value,
            _ => unreached(),
        }
    }

    /// Splices an occupied or moved slot back into the free list: the slot
    /// becomes `Free` chained to the old head, and the head moves to it.
    fn recycle_slot(&mut self, index: usize)
        requires
            index < old(self)@.slots.len(),
            old(self)@.slots[index as int] is Occupied || old(self)@.slots[index as int] is Moved,
        ensures
            final(self)@ == old(self)@.recycle(index as int),
    {
        self.buffer[index] = Slot::Free { next: self.head };
        self.head = index;
        self.free_order = Ghost(seq![index as int] + self.free_order@);
    }
}

/// A handle to one occupied slot of a [`DHeap`]: the move-only witness of
/// that slot's occupancy. It addresses the slot by stable index, so arena
/// growth never invalidates it. Its view is the index it owns.
#[derive(Debug)]
pub struct DBox {
    index: usize,
}

impl View for DBox {
    type V = int;

    closed spec fn view(&self) -> int {
        self.index as int
    }
}

impl DBox {
    /// The index of the slot this handle owns.
    pub fn slot_index(&self) -> (i: usize)
        ensures
            i == self@,
    {
        self.index
    }

    /// Consumes the handle and moves the value out of its slot. The slot
    /// passes through the transient `Moved` state and is then spliced back
    /// into the free list, exactly as an ordinary release would leave it:
    /// the value is returned once and never dropped by the arena.
    pub fn into_inner<T>(self, arena: &mut DHeap<T>) -> (value: T)
        requires
            old(arena)@.wf(),
            self@ < old(arena)@.slots.len(),
            old(arena)@.slots[self@] is Occupied,
        ensures
            final(arena)@.wf(),
            value == old(arena)@.value_at(self@),
            final(arena)@ == old(arena)@.recycle(self@),
            final(arena)@.slots.len() == old(arena)@.slots.len(),
    {
        let mut taken = Slot::Moved;
        core::mem::swap(&mut arena.buffer[self.index], &mut taken);
        let value = match taken {
            Slot::Occupied { value } => value,
            _ => unreached(),
        };
        arena.recycle_slot(self.index);
        proof {
            lemma_recycle_preserves_wf(old(arena)@, self@);
            crate::laws::lemma_extract_then_release(old(arena)@, self@);
        }
        value
    }

    /// Consumes the handle and recycles its slot: the value still held by
    /// an occupied slot is dropped, a slot already in the `Moved` state is
    /// recycled without touching the extracted value, and in either case
    /// the slot is pushed onto the front of the free list.
    pub fn release<T>(self, arena: &mut DHeap<T>)
        requires
            old(arena)@.wf(),
            self@ < old(arena)@.slots.len(),
            old(arena)@.slots[self@] is Occupied || old(arena)@.slots[self@] is Moved,
        ensures
            final(arena)@.wf(),
            final(arena)@ == old(arena)@.recycle(self@),
            final(arena)@.slots.len() == old(arena)@.slots.len(),
    {
        arena.recycle_slot(self.index);
        proof {
            lemma_recycle_preserves_wf(old(arena)@, self@);
        }
    }
}

} // verus!
