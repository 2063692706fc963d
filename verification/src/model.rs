//! The mathematical picture of a heap of counted allocations.
//!
//! A heap maps addresses to allocations. Each allocation carries its value,
//! the count that the executable code maintains, and the set of handles that
//! currently own it. Nothing in the executable code can see the owner set: it
//! exists so that "the count is the number of live handles" is a statement
//! that can be written down and proved.

use vstd::prelude::*;

verus! {

/// The identity of one handle: where it points, and a serial number that no
/// other handle issued by the same heap shares.
pub struct Handle {
    pub address: nat,
    pub serial: nat,
}

/// One live allocation.
pub struct Allocation<T> {
    /// The shared value.
    pub value: T,
    /// The owner count as stored next to the value.
    pub count: nat,
    /// Serial numbers of the handles that own this allocation.
    pub owners: Set<nat>,
}

impl<T> Allocation<T> {
    /// The stored count is exactly the number of owners, there is at least
    /// one owner, and every owner was issued before `next_serial`.
    pub open spec fn wf(self, next_serial: nat) -> bool {
        &&& self.owners.finite()
        &&& self.count == self.owners.len()
        &&& self.count >= 1
        &&& forall|s: nat| #[trigger] self.owners.contains(s) ==> s < next_serial
    }
}

/// Everything there is to know about a heap.
pub struct HeapState<T> {
    /// The live allocations, by address.
    pub allocations: Map<nat, Allocation<T>>,
    /// The address the next allocation will get. Addresses are never reused.
    pub next_address: nat,
    /// The serial number the next handle will get.
    pub next_serial: nat,
}

impl<T> HeapState<T> {
    /// A heap on which nothing has happened yet.
    pub open spec fn empty() -> Self {
        HeapState { allocations: Map::empty(), next_address: 0, next_serial: 0 }
    }

    /// Whether `address` is allocated and not yet freed.
    pub open spec fn live(self, address: nat) -> bool {
        self.allocations.dom().contains(address)
    }

    /// Whether `handle` is one of the owners of a live allocation.
    pub open spec fn holds(self, handle: Handle) -> bool {
        &&& self.live(handle.address)
        &&& self.allocations[handle.address].owners.contains(handle.serial)
    }

    /// The value stored at `address`.
    pub open spec fn value(self, address: nat) -> T
        recommends
            self.live(address),
    {
        self.allocations[address].value
    }

    /// The owner count stored at `address`.
    pub open spec fn count(self, address: nat) -> nat
        recommends
            self.live(address),
    {
        self.allocations[address].count
    }

    /// The handles that own `address`, by serial number.
    pub open spec fn owners(self, address: nat) -> Set<nat>
        recommends
            self.live(address),
    {
        self.allocations[address].owners
    }

    /// Every live allocation lies below `next_address` and is well formed.
    pub open spec fn wf(self) -> bool {
        forall|a: nat| #[trigger]
            self.live(a) ==> a < self.next_address && self.allocations[a].wf(self.next_serial)
    }

    /// The handle that a fresh allocation hands out.
    pub open spec fn fresh_handle(self) -> Handle {
        Handle { address: self.next_address, serial: self.next_serial }
    }

    /// The heap after `value` has been allocated with a single owner.
    pub open spec fn allocate(self, value: T) -> Self {
        HeapState {
            allocations: self.allocations.insert(
                self.next_address,
                Allocation { value, count: 1, owners: set![self.next_serial] },
            ),
            next_address: self.next_address + 1,
            next_serial: self.next_serial + 1,
        }
    }

    /// The handle that cloning `handle` hands out: same address, new serial.
    pub open spec fn clone_of(self, handle: Handle) -> Handle {
        Handle { address: handle.address, serial: self.next_serial }
    }

    /// The heap after `handle` has been cloned: one more owner, count up by
    /// one, value and every other allocation untouched.
    pub open spec fn share(self, handle: Handle) -> Self {
        let a = self.allocations[handle.address];
        HeapState {
            allocations: self.allocations.insert(
                handle.address,
                Allocation {
                    value: a.value,
                    count: a.count + 1,
                    owners: a.owners.insert(self.next_serial),
                },
            ),
            next_address: self.next_address,
            next_serial: self.next_serial + 1,
        }
    }

    /// The heap after `handle` has been dropped. If the stored count was one
    /// the allocation is gone; otherwise it stays with one owner fewer and
    /// the count down by one.
    pub open spec fn release(self, handle: Handle) -> Self {
        let a = self.allocations[handle.address];
        if a.count == 1 {
            HeapState {
                allocations: self.allocations.remove(handle.address),
                next_address: self.next_address,
                next_serial: self.next_serial,
            }
        } else {
            HeapState {
                allocations: self.allocations.insert(
                    handle.address,
                    Allocation {
                        value: a.value,
                        count: (a.count - 1) as nat,
                        owners: a.owners.remove(handle.serial),
                    },
                ),
                next_address: self.next_address,
                next_serial: self.next_serial,
            }
        }
    }

    /// The empty heap is well formed.
    pub proof fn lemma_empty_wf()
        ensures
            Self::empty().wf(),
    {
    }

    /// An allocation is live exactly when some handle owns it. So nothing is
    /// freed while a handle to it remains, and nothing stays allocated once
    /// its last handle is gone.
    pub proof fn lemma_live_iff_owned(self, address: nat)
        requires
            self.wf(),
        ensures
            self.live(address) <==> exists|serial: nat| #[trigger]
                self.holds(Handle { address, serial }),
    {
        if self.live(address) {
            let serial = self.owners(address).choose();
            assert(self.holds(Handle { address, serial }));
        }
    }

    /// Allocating keeps the heap well formed. The new allocation sits at an
    /// address that was not live, holds `value`, and has exactly one owner:
    /// the handle handed out. Every handle the heap held, it still holds.
    pub proof fn lemma_allocate(self, value: T)
        requires
            self.wf(),
        ensures
            self.allocate(value).wf(),
            !self.live(self.fresh_handle().address),
            self.allocate(value).holds(self.fresh_handle()),
            self.allocate(value).value(self.next_address) == value,
            self.allocate(value).count(self.next_address) == 1,
            self.allocate(value).owners(self.next_address) == set![self.next_serial],
            forall|other: Handle|
                self.holds(other) ==> #[trigger] self.allocate(value).holds(other),
    {
        let next = self.allocate(value);
        assert forall|a: nat| #[trigger] next.live(a) implies a < next.next_address
            && next.allocations[a].wf(next.next_serial) by {
            if a != self.next_address {
                assert(self.live(a));
            }
        }
    }

    /// Cloning keeps the heap well formed. The new handle is one the heap did
    /// not hold before, and afterwards the heap holds it along with every
    /// handle it held already.
    pub proof fn lemma_share(self, handle: Handle)
        requires
            self.wf(),
            self.holds(handle),
        ensures
            self.share(handle).wf(),
            self.share(handle).holds(handle),
            self.share(handle).holds(self.clone_of(handle)),
            !self.holds(self.clone_of(handle)),
            self.share(handle).count(handle.address) == self.count(handle.address) + 1,
            self.share(handle).value(handle.address) == self.value(handle.address),
            forall|other: Handle| self.holds(other) ==> #[trigger] self.share(handle).holds(other),
    {
        let next = self.share(handle);
        assert forall|a: nat| #[trigger] next.live(a) implies a < next.next_address
            && next.allocations[a].wf(next.next_serial) by {
            assert(self.live(a));
        }
    }

    /// Dropping keeps the heap well formed, and the dropped handle owns
    /// nothing afterwards. The allocation survives exactly when some other
    /// handle still owns it; then its value is unchanged and its count is
    /// down by one. Every other handle the heap held, it still holds.
    pub proof fn lemma_release(self, handle: Handle)
        requires
            self.wf(),
            self.holds(handle),
        ensures
            self.release(handle).wf(),
            !self.release(handle).holds(handle),
            self.release(handle).live(handle.address) <==> self.count(handle.address) > 1,
            self.release(handle).live(handle.address) ==> {
                &&& self.release(handle).count(handle.address) == self.count(handle.address) - 1
                &&& self.release(handle).value(handle.address) == self.value(handle.address)
            },
            forall|other: Handle|
                self.holds(other) && other != handle ==> #[trigger] self.release(handle).holds(
                    other,
                ),
    {
        let next = self.release(handle);
        assert forall|a: nat| #[trigger] next.live(a) implies a < next.next_address
            && next.allocations[a].wf(next.next_serial) by {
            assert(self.live(a));
        }
    }
}

} // verus!
