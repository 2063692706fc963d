//! A slot for one value that never lends out a reference to what it holds.
//!
//! The only ways in and out are a full copy (`get`) and a full replacement
//! (`set`). Because no reference into the slot ever escapes, overwriting it
//! cannot invalidate anything a caller still holds.

use vstd::prelude::*;

verus! {

/// Storage for exactly one `T`.
pub struct Cell<T> {
    value: T,
}

impl<T> View for Cell<T> {
    type V = T;

    /// The value currently stored.
    closed spec fn view(&self) -> T {
        self.value
    }
}

impl<T> Cell<T> {
    /// The cell as it is once `value` has been written to it.
    pub closed spec fn written(self, value: T) -> Self {
        Cell { value }
    }

    /// The cell as it is once every element of `writes` has been written to
    /// it, first to last.
    pub open spec fn after_writes(self, writes: Seq<T>) -> Self
        decreases writes.len(),
    {
        if writes.len() == 0 {
            self
        } else {
            self.after_writes(writes.drop_last()).written(writes.last())
        }
    }

    /// Wraps `value`.
    pub fn new(value: T) -> (cell: Self)
        ensures
            cell@ == value,
    {
        Cell { value }
    }

    /// Replaces the stored value with `value`; the previous one is dropped
    /// here.
    pub fn set(&mut self, value: T)
        ensures
            *final(self) == old(self).written(value),
            final(self)@ == value,
    {
        self.value = value;
    }

    /// Returns a copy of the stored value and leaves the cell untouched.
    pub fn get(&self) -> (value: T) where T: Copy
        ensures
            value == self@,
    {
        self.value
    }

    /// A write determines the contents, whatever was stored before.
    pub proof fn lemma_written_view(self, value: T)
        ensures
            self.written(value)@ == value,
    {
    }

    /// Last write wins: after any series of writes the cell holds the most
    /// recent one, and with no write at all it still holds what it held
    /// before.
    pub proof fn lemma_last_write_wins(self, writes: Seq<T>)
        ensures
            self.after_writes(writes)@ == if writes.len() == 0 {
                self@
            } else {
                writes.last()
            },
        decreases writes.len(),
    {
        if writes.len() > 0 {
            self.lemma_last_write_wins(writes.drop_last());
        }
    }
}

} // verus!
