use dheap::dheap::DHeap;

#[test]
fn fresh_arena_smallest_capacity() {
    let heap: DHeap<u8> = DHeap::with_capacity(2);
    assert_eq!(heap.size(), 1);
}

#[test]
fn release_keeps_size() {
    let mut heap: DHeap<u32> = DHeap::with_capacity(4);
    let a = heap.safe_new(10).unwrap();
    assert_eq!(heap.size(), 2);
    a.release(&mut heap);
    assert_eq!(heap.size(), 2);
    let b = heap.safe_new(11).unwrap();
    assert_eq!(heap.size(), 2);
    b.release(&mut heap);
    assert_eq!(heap.size(), 2);
}

#[test]
fn free_list_is_lifo() {
    let mut heap: DHeap<u32> = DHeap::with_capacity(8);
    let h1 = heap.safe_new(1).unwrap();
    let h2 = heap.safe_new(2).unwrap();
    let h3 = heap.safe_new(3).unwrap();
    let (i1, i2, i3) = (h1.slot_index(), h2.slot_index(), h3.slot_index());
    assert_ne!(i1, i2);
    assert_ne!(i2, i3);
    assert_ne!(i1, i3);

    h1.release(&mut heap);
    h2.release(&mut heap);
    h3.release(&mut heap);

    let n1 = heap.safe_new(4).unwrap();
    let n2 = heap.safe_new(5).unwrap();
    let n3 = heap.safe_new(6).unwrap();
    assert_eq!(n1.slot_index(), i3);
    assert_eq!(n2.slot_index(), i2);
    assert_eq!(n3.slot_index(), i1);
}

#[test]
fn extraction_leaves_slot_recyclable() {
    let mut heap: DHeap<String> = DHeap::with_capacity(4);
    let h = heap.safe_new(String::from("kept")).unwrap();
    let slot = h.slot_index();
    let value = h.into_inner(&mut heap);
    assert_eq!(value, "kept");
    assert_eq!(heap.size(), 2);

    let again = heap.safe_new(String::from("reused")).unwrap();
    assert_eq!(again.slot_index(), slot);
    assert_eq!(*heap.get(&again), "reused");
}

#[test]
fn checked_allocation_out_of_reserved_memory() {
    let mut heap: DHeap<u32> = DHeap::with_capacity(2);
    let a = heap.safe_new(1).unwrap();
    let b = heap.safe_new(2).unwrap();
    assert_eq!(heap.size(), 3);

    let err = heap.safe_new(3).unwrap_err();
    assert_eq!(err, "out of reserved memory!");
    assert_eq!(heap.size(), 3);

    // The length never shrinks, so the checked path keeps refusing even
    // once a slot is free again; the refusal left the free list intact,
    // and the unchecked path reuses exactly the released slot.
    let bi = b.slot_index();
    b.release(&mut heap);
    let err_again = heap.safe_new(4).unwrap_err();
    assert_eq!(err_again, "out of reserved memory!");
    assert_eq!(heap.size(), 3);

    let c = heap.unsafe_new(5);
    assert_eq!(c.slot_index(), bi);
    assert_eq!(*heap.get(&c), 5);
    assert_eq!(heap.size(), 3);
    c.release(&mut heap);
    a.release(&mut heap);
}

#[test]
fn round_trip_store_read_extract() {
    let mut heap: DHeap<u64> = DHeap::with_capacity(4);
    let h = heap.safe_new(7).unwrap();
    assert_eq!(*heap.get(&h), 7);
    let v = h.into_inner(&mut heap);
    assert_eq!(v, 7);
}

#[test]
fn write_through_handle() {
    let mut heap: DHeap<u32> = DHeap::with_capacity(4);
    let h = heap.safe_new(5).unwrap();
    *heap.get_mut(&h) = 50;
    assert_eq!(*heap.get(&h), 50);
    let v = h.into_inner(&mut heap);
    assert_eq!(v, 50);
}

#[test]
fn scenario_reuse_after_release_and_extract() {
    let mut heap: DHeap<i32> = DHeap::with_capacity(16);

    let mut handles = Vec::new();
    for v in [1, 2, 3, 4, 5] {
        handles.push(heap.safe_new(v).unwrap());
    }
    assert_eq!(heap.size(), 6);

    while let Some(h) = handles.pop() {
        h.release(&mut heap);
    }
    assert_eq!(heap.size(), 6);

    for v in [1, 2, 3, 4, 5] {
        handles.push(heap.safe_new(v).unwrap());
    }
    assert_eq!(heap.size(), 6);
    for (i, h) in handles.iter().enumerate() {
        assert_eq!(*heap.get(h), [1, 2, 3, 4, 5][i]);
    }

    for h in handles {
        h.into_inner(&mut heap);
    }
    assert_eq!(heap.size(), 6);
}

#[test]
fn unchecked_allocation_grows_past_reserved() {
    let mut heap: DHeap<u32> = DHeap::with_capacity(2);
    let a = heap.safe_new(1).unwrap();
    let b = heap.safe_new(2).unwrap();
    assert_eq!(heap.size(), 3);

    let c = heap.unsafe_new(3);
    assert_eq!(heap.size(), 4);
    assert_eq!(*heap.get(&c), 3);

    c.release(&mut heap);
    b.release(&mut heap);
    a.release(&mut heap);
    assert_eq!(heap.size(), 4);
}
