//! Fair round-robin draining of several sub-engines.
//!
//! A manager that owns `len` sub-engines polls the one `current()` names
//! and reports the poll's outcome through `process`. A sub-engine that
//! produced output hands the turn to the next one, so bursts interleave
//! one to one; a full round in which every sub-engine came up empty ends
//! the sweep (`current()` answers `None`) and arms the next sweep from
//! the start.

use vstd::prelude::*;

verus! {

/// Round-robin scheduler state over `len` sub-engines.
pub struct TaskSwitcher {
    len: usize,
    current: usize,
    misses: usize,
}

impl TaskSwitcher {
    /// How many sub-engines are polled.
    pub closed spec fn spec_len(&self) -> usize {
        self.len
    }

    /// The sub-engine the next poll goes to.
    pub closed spec fn spec_current(&self) -> usize {
        self.current
    }

    /// How many sub-engines in a row reported nothing.
    pub closed spec fn spec_misses(&self) -> usize {
        self.misses
    }

    /// The scheduler's internal invariant.
    pub closed spec fn wf(&self) -> bool {
        &&& self.len > 0
        &&& self.current < self.len
        &&& self.misses <= self.len
    }

    /// A scheduler over `len` sub-engines, starting at the first.
    pub fn new(len: usize) -> (r: TaskSwitcher)
        requires
            len > 0,
        ensures
            r.wf(),
            r.spec_len() == len,
            r.spec_current() == 0,
            r.spec_misses() == 0,
    {
        TaskSwitcher { len, current: 0, misses: 0 }
    }

    /// The sub-engine to poll now, or `None` when a whole round came up
    /// empty; answering `None` re-arms the next sweep.
    pub fn current(&mut self) -> (r: Option<usize>)
        requires
            old(self).wf(),
        ensures
            final(self).wf(),
            final(self).spec_len() == old(self).spec_len(),
            final(self).spec_current() == old(self).spec_current(),
            r is Some <==> old(self).spec_misses() < old(self).spec_len(),
            match r {
                Some(i) => {
                    &&& i == old(self).spec_current()
                    &&& i < old(self).spec_len()
                    &&& final(self).spec_misses() == old(self).spec_misses()
                },
                None => final(self).spec_misses() == 0,
            },
    {
        if self.misses >= self.len {
            self.misses = 0;
            None
        } else {
            Some(self.current)
        }
    }

    /// Records the outcome of polling the current sub-engine and moves
    /// the turn to the next one. A produced output resets the empty-round
    /// count; a miss lengthens it.
    pub fn process<T>(&mut self, out: Option<T>) -> (r: Option<T>)
        requires
            old(self).wf(),
        ensures
            final(self).wf(),
            r == out,
            final(self).spec_len() == old(self).spec_len(),
            final(self).spec_current() == (if old(self).spec_current() + 1
                == old(self).spec_len() {
                0usize
            } else {
                (old(self).spec_current() + 1) as usize
            }),
            final(self).spec_misses() == (if out is Some {
                0usize
            } else if old(self).spec_misses() < old(self).spec_len() {
                (old(self).spec_misses() + 1) as usize
            } else {
                old(self).spec_misses()
            }),
    {
        if out.is_some() {
            self.misses = 0;
        } else if self.misses < self.len {
            self.misses += 1;
        }
        self.current = if self.current + 1 == self.len {
            0
        } else {
            self.current + 1
        };
        out
    }
}

} // verus!
