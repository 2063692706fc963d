//! What holds of a heap over time.
//!
//! A history is a sequence of steps, each of which allocates a value, clones
//! a handle or drops one. The lemmas here speak of every history that only
//! ever uses handles it actually holds, which is the only kind a program can
//! produce: handles cannot be copied, and dropping one consumes it.

use crate::model::{Handle, HeapState};
use vstd::prelude::*;

verus! {

/// One operation on a heap.
pub enum Step<T> {
    /// Allocate a value and hand out its first handle.
    New(T),
    /// Hand out one more handle to the allocation of the given handle.
    Clone(Handle),
    /// Give the given handle back.
    Drop(Handle),
}

impl<T> Step<T> {
    /// Whether this step clones a handle to `address`.
    pub open spec fn clones(self, address: nat) -> bool {
        self matches Step::Clone(handle) && handle.address == address
    }

    /// Whether this step drops a handle to `address`.
    pub open spec fn drops(self, address: nat) -> bool {
        self matches Step::Drop(handle) && handle.address == address
    }
}

/// How many steps of `steps` clone a handle to `address`.
pub open spec fn clones_of<T>(steps: Seq<Step<T>>, address: nat) -> nat
    decreases steps.len(),
{
    if steps.len() == 0 {
        0
    } else {
        clones_of(steps.drop_last(), address) + if steps.last().clones(address) {
            1nat
        } else {
            0nat
        }
    }
}

/// How many steps of `steps` drop a handle to `address`.
pub open spec fn drops_of<T>(steps: Seq<Step<T>>, address: nat) -> nat
    decreases steps.len(),
{
    if steps.len() == 0 {
        0
    } else {
        drops_of(steps.drop_last(), address) + if steps.last().drops(address) {
            1nat
        } else {
            0nat
        }
    }
}

impl<T> HeapState<T> {
    /// Whether `step` may be taken now: cloning and dropping need a handle
    /// that the heap holds, allocating needs nothing.
    pub open spec fn enabled(self, step: Step<T>) -> bool {
        match step {
            Step::New(_) => true,
            Step::Clone(handle) => self.holds(handle),
            Step::Drop(handle) => self.holds(handle),
        }
    }

    /// The heap after `step`.
    pub open spec fn step(self, step: Step<T>) -> Self {
        match step {
            Step::New(value) => self.allocate(value),
            Step::Clone(handle) => self.share(handle),
            Step::Drop(handle) => self.release(handle),
        }
    }

    /// The heap after all of `steps`, first to last.
    pub open spec fn run(self, steps: Seq<Step<T>>) -> Self
        decreases steps.len(),
    {
        if steps.len() == 0 {
            self
        } else {
            self.run(steps.drop_last()).step(steps.last())
        }
    }

    /// Whether every step of `steps` is enabled at the moment it is taken.
    pub open spec fn admits(self, steps: Seq<Step<T>>) -> bool
        decreases steps.len(),
    {
        steps.len() == 0 || (self.admits(steps.drop_last()) && self.run(
            steps.drop_last(),
        ).enabled(steps.last()))
    }

    /// A single enabled step keeps the heap well formed and never takes back
    /// an address or a serial number.
    pub proof fn lemma_step_wf(self, step: Step<T>)
        requires
            self.wf(),
            self.enabled(step),
        ensures
            self.step(step).wf(),
            self.step(step).next_address >= self.next_address,
            self.step(step).next_serial >= self.next_serial,
    {
        match step {
            Step::New(value) => self.lemma_allocate(value),
            Step::Clone(handle) => self.lemma_share(handle),
            Step::Drop(handle) => self.lemma_release(handle),
        }
    }

    /// A step leaves every handle alone but the one it drops: a handle that
    /// the heap holds is still held after any other step, and still reads
    /// the same value.
    pub proof fn lemma_step_keeps_handle(self, step: Step<T>, handle: Handle)
        requires
            self.wf(),
            self.enabled(step),
            self.holds(handle),
            step != Step::<T>::Drop(handle),
        ensures
            self.step(step).holds(handle),
            self.step(step).value(handle.address) == self.value(handle.address),
    {
        match step {
            Step::New(value) => self.lemma_allocate(value),
            Step::Clone(cloned) => self.lemma_share(cloned),
            Step::Drop(dropped) => self.lemma_release(dropped),
        }
    }

    /// A handle stays usable until it is dropped itself: whatever else is
    /// allocated, cloned or dropped in the meantime, the heap still holds
    /// it, so its allocation is still live and still has the same value.
    pub proof fn lemma_held_until_dropped(self, steps: Seq<Step<T>>, handle: Handle)
        requires
            self.wf(),
            self.holds(handle),
            self.admits(steps),
            !steps.contains(Step::<T>::Drop(handle)),
        ensures
            self.run(steps).holds(handle),
            self.run(steps).value(handle.address) == self.value(handle.address),
        decreases steps.len(),
    {
        if steps.len() > 0 {
            let earlier = steps.drop_last();
            self.lemma_held_until_dropped(earlier, handle);
            self.lemma_run_wf(earlier);
            self.run(earlier).lemma_step_keeps_handle(steps.last(), handle);
        }
    }

    /// Well-formedness is invariant: in every state a history can reach,
    /// each live allocation's count equals the number of handles that own
    /// it, and that number is at least one.
    pub proof fn lemma_run_wf(self, steps: Seq<Step<T>>)
        requires
            self.wf(),
            self.admits(steps),
        ensures
            self.run(steps).wf(),
            self.run(steps).next_address >= self.next_address,
            self.run(steps).next_serial >= self.next_serial,
            forall|a: nat| #[trigger]
                self.run(steps).live(a) ==> self.run(steps).count(a) == self.run(steps).owners(
                    a,
                ).len() && self.run(steps).count(a) >= 1,
        decreases steps.len(),
    {
        if steps.len() > 0 {
            self.lemma_run_wf(steps.drop_last());
            self.run(steps.drop_last()).lemma_step_wf(steps.last());
        }
    }

    /// The count of an allocation is its count at the start, plus the clones
    /// of its handles since, minus the drops. The allocation is live for as
    /// long as that number is positive, and while it is live the number is
    /// also how many handles own it.
    pub proof fn lemma_count_tracks_handles(self, steps: Seq<Step<T>>, address: nat)
        requires
            self.wf(),
            self.live(address),
            self.admits(steps),
        ensures
            self.count(address) + clones_of(steps, address) >= drops_of(steps, address),
            self.run(steps).live(address) <==> self.count(address) + clones_of(steps, address)
                > drops_of(steps, address),
            self.run(steps).live(address) ==> {
                &&& self.run(steps).count(address) == self.count(address) + clones_of(
                    steps,
                    address,
                ) - drops_of(steps, address)
                &&& self.run(steps).owners(address).len() == self.run(steps).count(address)
            },
        decreases steps.len(),
    {
        if steps.len() > 0 {
            let before = self.run(steps.drop_last());
            self.lemma_count_tracks_handles(steps.drop_last(), address);
            self.lemma_run_wf(steps.drop_last());
            before.lemma_step_wf(steps.last());
        }
    }

    /// From one allocation on: after `n` clones and `d` drops of its handles
    /// the allocation is live exactly when `d <= n`, and then `n + 1 - d`
    /// handles own it.
    pub proof fn lemma_handles_after_new(self, value: T, steps: Seq<Step<T>>)
        requires
            self.wf(),
            self.allocate(value).admits(steps),
        ensures
            ({
                let address = self.fresh_handle().address;
                let end = self.allocate(value).run(steps);
                let n = clones_of(steps, address);
                let d = drops_of(steps, address);
                &&& d <= n + 1
                &&& end.live(address) <==> d <= n
                &&& end.live(address) ==> end.count(address) == n + 1 - d && end.owners(
                    address,
                ).len() == n + 1 - d
            }),
    {
        self.lemma_allocate(value);
        self.allocate(value).lemma_count_tracks_handles(steps, self.next_address);
    }

    /// The value of an allocation never changes while it is live.
    pub proof fn lemma_value_is_stable(self, steps: Seq<Step<T>>, address: nat)
        requires
            self.wf(),
            self.live(address),
            self.admits(steps),
            self.run(steps).live(address),
        ensures
            self.run(steps).value(address) == self.value(address),
        decreases steps.len(),
    {
        if steps.len() > 0 {
            self.lemma_run_wf(steps.drop_last());
            if !self.run(steps.drop_last()).live(address) {
                self.lemma_freed_stays_freed(steps.drop_last(), steps.last(), address);
            }
            self.lemma_value_is_stable(steps.drop_last(), address);
        }
    }

    /// An address that was handed out and is no longer live cannot come back
    /// in one step, and no step on one of its handles is enabled.
    pub proof fn lemma_freed_stays_freed(self, steps: Seq<Step<T>>, step: Step<T>, address: nat)
        requires
            self.wf(),
            address < self.next_address,
            self.admits(steps),
            !self.run(steps).live(address),
            self.run(steps).enabled(step),
        ensures
            !self.run(steps).step(step).live(address),
            !step.clones(address),
            !step.drops(address),
    {
        self.lemma_run_wf(steps);
    }

    /// Freeing is final: once an address that was handed out is not live, no
    /// history makes it live again, and no history clones or drops a handle
    /// to it. An allocation is therefore freed at most once.
    pub proof fn lemma_freed_is_final(self, steps: Seq<Step<T>>, address: nat)
        requires
            self.wf(),
            address < self.next_address,
            !self.live(address),
            self.admits(steps),
        ensures
            !self.run(steps).live(address),
            clones_of(steps, address) == 0,
            drops_of(steps, address) == 0,
        decreases steps.len(),
    {
        if steps.len() > 0 {
            self.lemma_freed_is_final(steps.drop_last(), address);
            self.lemma_freed_stays_freed(steps.drop_last(), steps.last(), address);
        }
    }
}

} // verus!
