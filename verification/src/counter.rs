//! The Global Counter: the number of live records, with overflow
//! detection.
//!
//! `increment` uses checked arithmetic and refuses — mutating nothing — at
//! the numeric ceiling; `decrement` is called only while records are live,
//! so its argument is never zero.

use vstd::prelude::*;

verus! {

/// Why an increment was refused.
#[derive(Clone, Copy, Debug, PartialEq, Eq, Structural)]
pub enum CounterError {
    /// The counter is at the ceiling of its type.
    Overflow,
}

/// A monotonically maintained count of live records.
pub struct GlobalCounter {
    pub value: u64,
}

impl GlobalCounter {
    /// A counter starting at zero.
    pub fn new() -> (r: GlobalCounter)
        ensures
            r.value == 0,
    {
        GlobalCounter { value: 0 }
    }

    /// The current count.
    pub fn get(&self) -> (r: u64)
        ensures
            r == self.value,
    {
        self.value
    }

    /// Adds one, failing — and mutating nothing — instead of wrapping at
    /// the ceiling.
    pub fn increment(&mut self) -> (r: Result<u64, CounterError>)
        ensures
            r is Ok <==> old(self).value < u64::MAX,
            r is Ok ==> final(self).value == old(self).value + 1 && r->Ok_0 == final(self).value,
            r is Err ==> *final(self) == *old(self) && r == Err::<u64, CounterError>(
                CounterError::Overflow,
            ),
    {
        match self.value.checked_add(1) {
            Some(next) => {
                self.value = next;
                Ok(next)
            },
            None => Err(CounterError::Overflow),
        }
    }

    /// Subtracts one; the coordinator calls this only while a record is
    /// live, so the count is never zero here.
    pub fn decrement(&mut self) -> (r: u64)
        requires
            old(self).value > 0,
        ensures
            final(self).value == old(self).value - 1,
            r == final(self).value,
    {
        self.value = self.value - 1;
        self.value
    }
}

} // verus!
