use dheap::dheap::{DBox, DHeap};

#[test]
fn create_dheap() {
    let heap: DHeap<i32> = DHeap::with_capacity(16);
    assert_eq!(heap.size(), 1);
}

#[test]
fn allocate_and_deallocate() {
    let mut heap: DHeap<i32> = DHeap::with_capacity(16);
    let val = 42;

    let dbox = heap.safe_new(val).unwrap();
    assert_eq!(heap.size(), 2);
    assert_eq!(*heap.get(&dbox), val);

    let inner_val = dbox.into_inner(&mut heap);
    assert_eq!(inner_val, val);
    assert_eq!(heap.size(), 2);
}

#[test]
fn multiple_allocations() {
    let mut heap: DHeap<i32> = DHeap::with_capacity(16);
    let vals = vec![1, 2, 3, 4, 5];

    let mut dboxes = Vec::new();
    for val in &vals {
        dboxes.push(heap.safe_new(*val).unwrap());
    }

    for (i, dbox) in dboxes.iter().enumerate() {
        assert_eq!(*heap.get(dbox), vals[i]);
    }

    assert_eq!(heap.size(), 6);

    while let Some(dbox) = dboxes.pop() {
        dbox.release(&mut heap);
    }

    assert_eq!(heap.size(), 6);

    for val in &vals {
        dboxes.push(heap.safe_new(*val).unwrap());
    }

    for (i, dbox) in dboxes.iter().enumerate() {
        assert_eq!(*heap.get(dbox), vals[i]);
    }

    assert_eq!(heap.size(), 6);

    for dbox in dboxes {
        dbox.into_inner(&mut heap);
    }

    assert_eq!(heap.size(), 6);
}

struct ListNode {
    value: i32,
    next: Option<DBox>,
}

#[test]
fn linked_list() {
    let mut heap: DHeap<ListNode> = DHeap::with_capacity(16);

    let mut prev_node: Option<DBox> = None;

    for value in 0..10 {
        println!("Adding {}", value);
        let next = match prev_node {
            Some(node) => {
                let inner = node.into_inner(&mut heap);
                Some(heap.safe_new(inner).unwrap())
            }
            None => None,
        };
        let node = heap.safe_new(ListNode { value, next }).unwrap();
        prev_node = Some(node);
    }

    for _ in 0..4 {
        if let Some(node) = prev_node {
            println!("Popping {}", heap.get(&node).value);
            prev_node = node.into_inner(&mut heap).next;
        }
    }

    for value in 0..10 {
        println!("Adding {}", value);
        let next = match prev_node {
            Some(node) => {
                let inner = node.into_inner(&mut heap);
                Some(heap.safe_new(inner).unwrap())
            }
            None => None,
        };
        let node = heap.safe_new(ListNode { value, next }).unwrap();
        prev_node = Some(node);
    }

    while let Some(node) = prev_node {
        println!("Popping {}", heap.get(&node).value);
        prev_node = node.into_inner(&mut heap).next;
    }

    println!("Final Size {}", heap.size());
}
