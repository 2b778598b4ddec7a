//! The concurrency orchestrator.
//!
//! Sync drivers for many conversations run with a fixed cap on how many are
//! in flight at once.  The orchestrator decides which conversation starts
//! next and records which finished; the invariant that no more than the cap
//! are active at any moment is part of every operation's contract.  A
//! conversation's failure is reported through `finish` like any other end:
//! one conversation's error never unseats its siblings.

use vstd::prelude::*;

verus! {

/// Bounded-concurrency scheduling state over conversation ids.
pub struct Orchestrator {
    /// Conversations not yet started, in order.
    pub waiting: Vec<u64>,
    /// Conversations currently in flight.
    pub active: Vec<u64>,
    /// Most conversations allowed in flight at once.
    pub cap: usize,
}

impl Orchestrator {
    /// The concurrency cap is never exceeded.
    pub open spec fn wf(&self) -> bool {
        self.active@.len() <= self.cap
    }

    /// A fresh schedule: everything waiting, nothing active.
    pub fn new(conversations: Vec<u64>, cap: usize) -> (r: Orchestrator)
        requires
            cap >= 1,
        ensures
            r.waiting == conversations,
            r.active@.len() == 0,
            r.cap == cap,
            r.wf(),
    {
        Orchestrator { waiting: conversations, active: Vec::new(), cap }
    }

    /// Starts the next waiting conversation if a slot is free: exactly when
    /// fewer than `cap` are active and something waits.
    pub fn try_start(&mut self) -> (r: Option<u64>)
        requires
            old(self).wf(),
        ensures
            final(self).wf(),
            final(self).cap == old(self).cap,
            if old(self).active@.len() < old(self).cap && old(self).waiting@.len() > 0 {
                &&& r == Some(old(self).waiting@[0])
                &&& final(self).waiting@ == old(self).waiting@.drop_first()
                &&& final(self).active@ == old(self).active@.push(old(self).waiting@[0])
            } else {
                &&& r is None
                &&& final(self).waiting == old(self).waiting
                &&& final(self).active == old(self).active
            },
    {
        if self.active.len() < self.cap && self.waiting.len() > 0 {
            let id: u64 = self.waiting.remove(0);
            self.active.push(id);
            proof {
                assert(self.waiting@ =~= old(self).waiting@.drop_first());
            }
            Some(id)
        } else {
            None
        }
    }

    /// Records that an in-flight conversation ended, successfully or not,
    /// freeing its slot.  Returns whether the id was actually active; the
    /// first active entry with that id is removed.
    pub fn finish(&mut self, id: u64) -> (r: bool)
        requires
            old(self).wf(),
        ensures
            final(self).wf(),
            final(self).cap == old(self).cap,
            final(self).waiting == old(self).waiting,
            r == old(self).active@.contains(id),
            if old(self).active@.contains(id) {
                exists|k: int|
                    {
                        &&& 0 <= k < old(self).active@.len()
                        &&& old(self).active@[k] == id
                        &&& (forall|j: int| 0 <= j < k ==> old(self).active@[j] != id)
                        &&& final(self).active@ == old(self).active@.remove(k)
                    }
            } else {
                final(self).active == old(self).active
            },
    {
        let mut k: usize = 0;
        while k < self.active.len()
            invariant
                0 <= k <= self.active@.len(),
                *self == *old(self),
                old(self).wf(),
                forall|j: int| 0 <= j < k ==> old(self).active@[j] != id,
            decreases self.active@.len() - k,
        {
            if self.active[k] == id {
                self.active.remove(k);
                proof {
                    assert(old(self).active@.contains(id)) by {
                        assert(old(self).active@[k as int] == id);
                    }
                    assert(self.active@.len() == old(self).active@.len() - 1);
                }
                return true;
            }
            k = k + 1;
        }
        proof {
            if self.active@.contains(id) {
                let w = choose|w: int| 0 <= w < self.active@.len() && self.active@[w] == id;
                assert(false);
            }
        }
        false
    }

    /// How many conversations are in flight.
    pub fn active_count(&self) -> (n: usize)
        ensures
            n == self.active@.len(),
    {
        self.active.len()
    }

    /// How many conversations still wait.
    pub fn waiting_count(&self) -> (n: usize)
        ensures
            n == self.waiting@.len(),
    {
        self.waiting.len()
    }
}

} // verus!
