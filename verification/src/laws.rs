//! The arena's laws: properties that relate several operations, stated
//! over the [`HeapModel`] transitions that the executable operations are
//! specified by.

use vstd::prelude::*;
use crate::dheap::{HeapModel, Slot};
use crate::dheap::{lemma_allocate_preserves_wf, lemma_recycle_preserves_wf};

verus! {

/// Extraction followed by the handle's release leaves the arena exactly as
/// an ordinary release does: the slot ends in the same recyclable `Free`
/// state, spliced onto the free list once, and the extracted value is not
/// touched again.
pub proof fn lemma_extract_then_release<T>(m: HeapModel<T>, i: int)
    requires
        m.wf(),
        0 <= i < m.slots.len(),
        m.slots[i] is Occupied,
    ensures
        m.extract(i).recycle(i) == m.recycle(i),
{
    assert(m.extract(i).recycle(i).slots =~= m.recycle(i).slots);
    assert(m.extract(i).recycle(i).free =~= m.recycle(i).free);
}

/// The backing length never decreases: releasing or extracting keeps it
/// exactly, and allocating changes it only on the growth path, by one.
pub proof fn lemma_size_changes_only_by_growth<T>(m: HeapModel<T>, i: int, v: T)
    requires
        m.wf(),
        0 <= i < m.slots.len(),
    ensures
        m.recycle(i).slots.len() == m.slots.len(),
        m.extract(i).slots.len() == m.slots.len(),
        m.write(i, v).slots.len() == m.slots.len(),
        m.must_grow() ==> m.allocate(v).slots.len() == m.slots.len() + 1,
        !m.must_grow() ==> m.allocate(v).slots.len() == m.slots.len(),
{
}

/// The free list is LIFO: after a slot is released, the very next
/// allocation reuses exactly that slot — the arena ends as if the slot's
/// value had merely been overwritten, with head and free list restored.
pub proof fn lemma_free_list_lifo<T>(m: HeapModel<T>, i: int, v: T)
    requires
        m.wf(),
        0 <= i < m.slots.len(),
        m.slots[i] is Occupied || m.slots[i] is Moved,
    ensures
        m.recycle(i).head == i,
        !m.recycle(i).must_grow(),
        m.recycle(i).allocate(v) == m.write(i, v),
{
    lemma_recycle_preserves_wf(m, i);
    let mr = m.recycle(i);
    assert(mr.allocate(v).slots =~= m.write(i, v).slots);
    assert(mr.allocate(v).free =~= m.write(i, v).free);
    assert(mr.allocate(v).head == m.head);
}

/// The arena after a sequence of allocations, first value first.
pub open spec fn allocate_all<T>(m: HeapModel<T>, vs: Seq<T>) -> HeapModel<T>
    decreases vs.len(),
{
    if vs.len() == 0 {
        m
    } else {
        allocate_all(m.allocate(vs[0]), vs.drop_first())
    }
}

/// The arena after a sequence of releases, first handle first.
pub open spec fn recycle_all<T>(m: HeapModel<T>, handles: Seq<int>) -> HeapModel<T>
    decreases handles.len(),
{
    if handles.len() == 0 {
        m
    } else {
        recycle_all(m.recycle(handles[0]), handles.drop_first())
    }
}

/// Allocations that are covered by the free list reuse slots and never
/// grow the backing sequence: one free slot is consumed per value.
pub proof fn lemma_reuse_without_growth<T>(m: HeapModel<T>, vs: Seq<T>)
    requires
        m.wf(),
        vs.len() <= m.free.len(),
    ensures
        allocate_all(m, vs).wf(),
        allocate_all(m, vs).slots.len() == m.slots.len(),
        allocate_all(m, vs).free.len() == m.free.len() - vs.len(),
    decreases vs.len(),
{
    if vs.len() > 0 {
        assert(m.slots[m.free[0]] is Free);
        lemma_allocate_preserves_wf(m, vs[0]);
        lemma_reuse_without_growth(m.allocate(vs[0]), vs.drop_first());
    }
}

/// With the free list exhausted, every allocation grows the backing
/// sequence by one and the free list stays empty.
pub proof fn lemma_growth_when_free_list_empty<T>(m: HeapModel<T>, vs: Seq<T>)
    requires
        m.wf(),
        m.free.len() == 0,
        m.slots.len() + vs.len() <= usize::MAX,
    ensures
        allocate_all(m, vs).wf(),
        allocate_all(m, vs).slots.len() == m.slots.len() + vs.len(),
        allocate_all(m, vs).free.len() == 0,
    decreases vs.len(),
{
    if vs.len() > 0 {
        assert(m.must_grow());
        lemma_allocate_preserves_wf(m, vs[0]);
        lemma_growth_when_free_list_empty(m.allocate(vs[0]), vs.drop_first());
    }
}

/// Releasing any number of distinct occupied slots keeps the backing
/// length and extends the free list by exactly one entry per release.
pub proof fn lemma_release_all<T>(m: HeapModel<T>, handles: Seq<int>)
    requires
        m.wf(),
        forall|j: int|
            #![trigger handles[j]]
            0 <= j < handles.len() ==> 0 <= handles[j] < m.slots.len() && m.slots[handles[j]]
                is Occupied,
        forall|j1: int, j2: int|
            #![trigger handles[j1], handles[j2]]
            0 <= j1 < j2 < handles.len() ==> handles[j1] != handles[j2],
    ensures
        recycle_all(m, handles).wf(),
        recycle_all(m, handles).slots.len() == m.slots.len(),
        recycle_all(m, handles).free.len() == m.free.len() + handles.len(),
    decreases handles.len(),
{
    if handles.len() > 0 {
        lemma_recycle_preserves_wf(m, handles[0]);
        let m2 = m.recycle(handles[0]);
        let rest = handles.drop_first();
        assert forall|j: int| 0 <= j < rest.len() implies 0 <= #[trigger] rest[j]
            < m2.slots.len() && m2.slots[rest[j]] is Occupied by {
            assert(rest[j] == handles[j + 1]);
            assert(handles[j + 1] != handles[0]);
        }
        assert forall|j1: int, j2: int| 0 <= j1 < j2 < rest.len() implies #[trigger] rest[j1]
            != #[trigger] rest[j2] by {
            assert(rest[j1] == handles[j1 + 1] && rest[j2] == handles[j2 + 1]);
        }
        lemma_release_all(m2, rest);
    }
}

/// Slots are reused, not re-grown: after releasing a set of distinct
/// occupied slots, any run of allocations that fits in the released slots
/// plus the slots that were already free leaves the backing length
/// exactly where it was.
pub proof fn lemma_slots_reused_not_regrown<T>(m: HeapModel<T>, handles: Seq<int>, vs: Seq<T>)
    requires
        m.wf(),
        forall|j: int|
            #![trigger handles[j]]
            0 <= j < handles.len() ==> 0 <= handles[j] < m.slots.len() && m.slots[handles[j]]
                is Occupied,
        forall|j1: int, j2: int|
            #![trigger handles[j1], handles[j2]]
            0 <= j1 < j2 < handles.len() ==> handles[j1] != handles[j2],
        vs.len() <= m.free.len() + handles.len(),
    ensures
        allocate_all(recycle_all(m, handles), vs).wf(),
        allocate_all(recycle_all(m, handles), vs).slots.len() == m.slots.len(),
{
    lemma_release_all(m, handles);
    lemma_reuse_without_growth(recycle_all(m, handles), vs);
}

} // verus!
