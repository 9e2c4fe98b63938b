//! Execution threads.  The machine runs one call stack per thread and
//! currently executes on a single thread; the identifier is assigned by
//! the runtime that creates the thread.

use vstd::prelude::*;

verus! {

/// One execution thread, known by its identifier.
#[derive(Debug, Clone, Copy, PartialEq, Eq, Structural)]
pub struct Thread {
    pub id: u64,
}

impl Thread {
    /// Wraps the identifier the runtime assigned.
    pub fn new(id: u64) -> (t: Thread)
        ensures
            t.id == id,
    {
        Thread { id }
    }

    /// The thread's identifier.
    pub fn get_id(&self) -> (r: u64)
        ensures
            r == self.id,
    {
        self.id
    }
}

} // verus!
