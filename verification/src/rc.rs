//! Shared ownership by counting.
//!
//! A [`Heap`] owns every allocation; an [`Rc`] is a handle that names one of
//! them by address. The allocation record keeps its owner count in a
//! [`Cell`]. Cloning a handle raises the count, dropping one lowers it, and
//! the drop that finds the count at one frees the record together with the
//! value inside it.
//!
//! The count is updated by a plain read followed by a write. That is sound
//! because every update goes through an exclusive borrow of the heap, so no
//! two updates can interleave.

use crate::cell::Cell;
use crate::model::{Handle, HeapState};
use std::marker::PhantomData;
use vstd::prelude::*;

verus! {

/// The allocation record: the shared value and the number of handles that
/// own it.
struct RcInner<T> {
    value: T,
    refcount: Cell<usize>,
}

/// The backing store for reference-counted values.
///
/// Addresses are handed out in increasing order and never reused, so a freed
/// address stays free. Freeing an allocation drops its value at once; the
/// emptied slot itself is given up only when the heap is.
pub struct Heap<T> {
    slots: Vec<Option<RcInner<T>>>,
    state: Ghost<HeapState<T>>,
}

/// A counted handle to a `T` stored in a [`Heap`].
///
/// Handles are created by [`Rc::new`] and [`Rc::clone`] and given back with
/// [`Rc::drop`]. A handle that goes out of scope without being given back
/// keeps its allocation alive for as long as the heap exists.
pub struct Rc<T> {
    inner: usize,
    serial: Ghost<nat>,
    _marker: PhantomData<RcInner<T>>,
}

impl<T> View for Heap<T> {
    type V = HeapState<T>;

    closed spec fn view(&self) -> HeapState<T> {
        self.state@
    }
}

impl<T> View for Rc<T> {
    type V = Handle;

    closed spec fn view(&self) -> Handle {
        Handle { address: self.inner as nat, serial: self.serial@ }
    }
}

impl<T> Heap<T> {
    /// What is stored matches the view: slot `i` is occupied exactly when
    /// address `i` is live, and then holds that allocation's value and count.
    pub closed spec fn stores_view(&self) -> bool {
        &&& self.slots@.len() == self.state@.next_address
        &&& forall|i: int|
            0 <= i < self.slots@.len() ==> match #[trigger] self.slots@[i] {
                Some(inner) => {
                    &&& self.state@.live(i as nat)
                    &&& inner.value == self.state@.value(i as nat)
                    &&& inner.refcount@ == self.state@.count(i as nat)
                },
                None => !self.state@.live(i as nat),
            }
    }

    /// The view is well formed and what is stored matches it.
    pub open spec fn wf(&self) -> bool {
        &&& self@.wf()
        &&& self.stores_view()
    }

    /// A heap with nothing allocated.
    pub fn new() -> (heap: Self)
        ensures
            heap.wf(),
            heap@ == HeapState::<T>::empty(),
    {
        Heap { slots: Vec::new(), state: Ghost(HeapState::empty()) }
    }

    /// Whether `address` currently holds an allocation.
    pub fn is_allocated(&self, address: usize) -> (allocated: bool)
        requires
            self.wf(),
        ensures
            allocated == self@.live(address as nat),
    {
        address < self.slots.len() && self.slots[address].is_some()
    }
}

impl<T> Rc<T> {
    /// Allocates a record holding `v` with a count of one and returns the
    /// only handle to it.
    pub fn new(v: T, heap: &mut Heap<T>) -> (rc: Self)
        requires
            old(heap).wf(),
        ensures
            final(heap).wf(),
            final(heap)@ == old(heap)@.allocate(v),
            rc@ == old(heap)@.fresh_handle(),
    {
        let inner = RcInner { value: v, refcount: Cell::new(1) };
        let address = heap.slots.len();
        let ghost before = heap.state@;
        heap.slots.push(Some(inner));
        proof {
            before.lemma_allocate(v);
            heap.state@ = before.allocate(v);
        }
        Rc { inner: address, serial: Ghost(before.next_serial), _marker: PhantomData }
    }

    /// Hands out one more handle to the same allocation: reads the count,
    /// adds one, stores the result. Nothing is copied.
    pub fn clone(&self, heap: &mut Heap<T>) -> (rc: Self)
        requires
            old(heap).wf(),
            old(heap)@.holds(self@),
            old(heap)@.count(self@.address) < usize::MAX,
        ensures
            final(heap).wf(),
            final(heap)@ == old(heap)@.share(self@),
            rc@ == old(heap)@.clone_of(self@),
    {
        let ghost before = heap.state@;
        let inner = heap.slots[self.inner].as_mut().unwrap();
        let c = inner.refcount.get();
        inner.refcount.set(c + 1);
        proof {
            before.lemma_share(self@);
            heap.state@ = before.share(self@);
        }
        Rc { inner: self.inner, serial: Ghost(before.next_serial), _marker: PhantomData }
    }

    /// Read access to the shared value.
    pub fn deref<'a>(&self, heap: &'a Heap<T>) -> (value: &'a T)
        requires
            heap.wf(),
            heap@.holds(self@),
        ensures
            *value == heap@.value(self@.address),
    {
        let inner = heap.slots[self.inner].as_ref().unwrap();
        &inner.value
    }

    /// Gives the handle back. The last handle to go takes the allocation
    /// with it, value included; any other just lowers the count by one.
    pub fn drop(self, heap: &mut Heap<T>)
        requires
            old(heap).wf(),
            old(heap)@.holds(self@),
        ensures
            final(heap).wf(),
            final(heap)@ == old(heap)@.release(self@),
    {
        let ghost before = heap.state@;
        let inner = heap.slots[self.inner].as_mut().unwrap();
        let c = inner.refcount.get();
        if c == 1 {
            heap.slots[self.inner] = None;
        } else {
            inner.refcount.set(c - 1);
        }
        proof {
            before.lemma_release(self@);
            heap.state@ = before.release(self@);
        }
    }

    /// The number of handles that currently own the allocation.
    pub fn count(&self, heap: &Heap<T>) -> (count: usize)
        requires
            heap.wf(),
            heap@.holds(self@),
        ensures
            count == heap@.count(self@.address),
            count == heap@.owners(self@.address).len(),
            count >= 1,
    {
        let inner = heap.slots[self.inner].as_ref().unwrap();
        inner.refcount.get()
    }

    /// The address of the allocation this handle points to.
    pub fn address(&self) -> (address: usize)
        ensures
            address == self@.address,
    {
        self.inner
    }
}

} // verus!
