use pointers::rc::{Heap, Rc};
use std::cell::Cell as Tally;
use std::rc::Rc as Shared;

/// Counts its own destruction in a tally shared with the test.
struct Witness {
    label: u32,
    drops: Shared<Tally<usize>>,
}

impl Drop for Witness {
    fn drop(&mut self) {
        self.drops.set(self.drops.get() + 1);
    }
}

#[test]
fn new_starts_with_one_owner() {
    let mut heap = Heap::new();
    let rc = Rc::new(7u32, &mut heap);
    assert_eq!(rc.count(&heap), 1);
    assert_eq!(*rc.deref(&heap), 7);
    assert!(heap.is_allocated(rc.address()));
}

#[test]
fn empty_heap_has_no_allocations() {
    let heap: Heap<u8> = Heap::new();
    assert!(!heap.is_allocated(0));
    assert!(!heap.is_allocated(1));
    assert!(!heap.is_allocated(usize::MAX));
}

#[test]
fn clone_and_drop_scenario() {
    let mut heap = Heap::new();
    let first = Rc::new(5, &mut heap);
    let address = first.address();
    assert_eq!(first.count(&heap), 1);

    let second = first.clone(&mut heap);
    assert_eq!(first.count(&heap), 2);
    assert_eq!(second.count(&heap), 2);

    let third = second.clone(&mut heap);
    assert_eq!(first.count(&heap), 3);
    assert_eq!(third.count(&heap), 3);

    second.drop(&mut heap);
    assert_eq!(first.count(&heap), 2);
    assert_eq!(*first.deref(&heap), 5);
    assert_eq!(*third.deref(&heap), 5);

    first.drop(&mut heap);
    assert_eq!(third.count(&heap), 1);
    assert_eq!(*third.deref(&heap), 5);
    assert!(heap.is_allocated(address));

    third.drop(&mut heap);
    assert!(!heap.is_allocated(address));
}

#[test]
fn value_is_torn_down_once_with_the_last_handle() {
    let drops = Shared::new(Tally::new(0));
    let mut heap = Heap::new();
    let first = Rc::new(Witness { label: 5, drops: drops.clone() }, &mut heap);
    let second = first.clone(&mut heap);
    let third = first.clone(&mut heap);
    assert_eq!(drops.get(), 0);

    first.drop(&mut heap);
    assert_eq!(drops.get(), 0);
    assert_eq!(third.deref(&heap).label, 5);

    third.drop(&mut heap);
    assert_eq!(drops.get(), 0);
    assert_eq!(second.deref(&heap).label, 5);

    second.drop(&mut heap);
    assert_eq!(drops.get(), 1);

    std::mem::drop(heap);
    assert_eq!(drops.get(), 1);
}

#[test]
fn single_handle_drop_frees_at_once() {
    let drops = Shared::new(Tally::new(0));
    let mut heap = Heap::new();
    let only = Rc::new(Witness { label: 1, drops: drops.clone() }, &mut heap);
    let address = only.address();
    only.drop(&mut heap);
    assert_eq!(drops.get(), 1);
    assert!(!heap.is_allocated(address));
}

#[test]
fn n_clones_make_n_plus_one_handles() {
    let mut heap = Heap::new();
    let origin = Rc::new(String::from("shared"), &mut heap);
    let address = origin.address();
    let mut handles = vec![origin];
    for n in 1..=20usize {
        let next = handles[n - 1].clone(&mut heap);
        handles.push(next);
        assert_eq!(handles[0].count(&heap), n + 1);
    }
    assert_eq!(handles.len(), 21);

    let mut remaining = 21usize;
    while let Some(handle) = handles.pop() {
        assert!(heap.is_allocated(address));
        assert_eq!(handle.count(&heap), remaining);
        assert_eq!(handle.deref(&heap), "shared");
        handle.drop(&mut heap);
        remaining -= 1;
        assert_eq!(heap.is_allocated(address), remaining > 0);
    }
    assert_eq!(remaining, 0);
    assert!(!heap.is_allocated(address));
}

#[test]
fn drop_of_a_shared_handle_lowers_the_count() {
    let mut heap = Heap::new();
    let first = Rc::new(1u8, &mut heap);
    let second = first.clone(&mut heap);
    assert_eq!(first.count(&heap), 2);
    second.drop(&mut heap);
    assert_eq!(first.count(&heap), 1);
    let address = first.address();
    first.drop(&mut heap);
    assert!(!heap.is_allocated(address));
}

#[test]
fn every_handle_sees_the_value_given_at_construction() {
    let mut heap = Heap::new();
    let first = Rc::new(vec![1, 2, 3], &mut heap);
    let second = first.clone(&mut heap);
    let other = Rc::new(vec![9], &mut heap);
    let third = second.clone(&mut heap);
    assert_eq!(first.deref(&heap), &vec![1, 2, 3]);
    assert_eq!(second.deref(&heap), &vec![1, 2, 3]);
    assert_eq!(third.deref(&heap), &vec![1, 2, 3]);
    first.drop(&mut heap);
    other.drop(&mut heap);
    assert_eq!(second.deref(&heap), &vec![1, 2, 3]);
    second.drop(&mut heap);
    assert_eq!(third.deref(&heap), &vec![1, 2, 3]);
    third.drop(&mut heap);
}

#[test]
fn clones_share_one_allocation() {
    let mut heap = Heap::new();
    let first = Rc::new(0u64, &mut heap);
    let second = first.clone(&mut heap);
    assert_eq!(first.address(), second.address());
    assert!(std::ptr::eq(first.deref(&heap), second.deref(&heap)));
    first.drop(&mut heap);
    second.drop(&mut heap);
}

#[test]
fn allocations_are_counted_separately() {
    let mut heap = Heap::new();
    let left = Rc::new('l', &mut heap);
    let right = Rc::new('r', &mut heap);
    assert_ne!(left.address(), right.address());
    let left_again = left.clone(&mut heap);
    assert_eq!(left.count(&heap), 2);
    assert_eq!(right.count(&heap), 1);

    let right_address = right.address();
    right.drop(&mut heap);
    assert!(!heap.is_allocated(right_address));
    assert_eq!(left.count(&heap), 2);
    assert_eq!(*left_again.deref(&heap), 'l');

    left.drop(&mut heap);
    left_again.drop(&mut heap);
}

#[test]
fn freed_addresses_are_not_handed_out_again() {
    let mut heap = Heap::new();
    let first = Rc::new(1i32, &mut heap);
    let first_address = first.address();
    first.drop(&mut heap);
    let second = Rc::new(2i32, &mut heap);
    assert_ne!(second.address(), first_address);
    assert!(!heap.is_allocated(first_address));
    assert!(heap.is_allocated(second.address()));
    assert_eq!(*second.deref(&heap), 2);
    second.drop(&mut heap);
}

#[test]
fn a_forgotten_handle_keeps_the_value_until_the_heap_goes() {
    let drops = Shared::new(Tally::new(0));
    let mut heap = Heap::new();
    let kept = Rc::new(Witness { label: 3, drops: drops.clone() }, &mut heap);
    let forgotten = kept.clone(&mut heap);
    let address = kept.address();
    std::mem::drop(forgotten);
    kept.drop(&mut heap);
    assert!(heap.is_allocated(address));
    assert_eq!(drops.get(), 0);
    std::mem::drop(heap);
    assert_eq!(drops.get(), 1);
}
