//! Bounded drop-oldest queue used per WebSocket subscriber.
//!
//! When the queue is at capacity, pushing drops the oldest element to make
//! room and counts the drop.

use std::collections::VecDeque;

use vstd::prelude::*;

use crate::events::Event;

verus! {

broadcast use vstd::std_specs::vecdeque::group_vec_dequeue_axioms;

pub struct DropOldestQueue {
    cap: usize,
    inner: VecDeque<Event>,
    dropped: u64,
}

impl DropOldestQueue {
    /// The queued events, oldest first.
    pub closed spec fn contents(&self) -> Seq<Event> {
        self.inner@
    }

    pub closed spec fn capacity(&self) -> nat {
        self.cap as nat
    }

    pub closed spec fn dropped_count(&self) -> u64 {
        self.dropped
    }

    /// At least one slot, and never more queued than slots.
    pub closed spec fn wf(&self) -> bool {
        &&& self.cap >= 1
        &&& self.inner@.len() <= self.cap
    }

    /// A queue holding at most `max(cap, 1)` events.
    pub fn new(cap: usize) -> (r: DropOldestQueue)
        ensures
            r.wf(),
            r.contents() == Seq::<Event>::empty(),
            r.capacity() == (if cap == 0 { 1 } else { cap }),
            r.dropped_count() == 0,
    {
        let cap = if cap < 1 { 1 } else { cap };
        DropOldestQueue { cap, inner: VecDeque::with_capacity(cap), dropped: 0 }
    }

    /// Push a new event; returns `true` if the oldest one was dropped to
    /// make room.
    pub fn push(&mut self, e: Event) -> (overflowed: bool)
        requires
            old(self).wf(),
        ensures
            final(self).wf(),
            final(self).capacity() == old(self).capacity(),
            overflowed == (old(self).contents().len() == old(self).capacity()),
            overflowed ==> final(self).contents() == old(self).contents().drop_first().push(e),
            !overflowed ==> final(self).contents() == old(self).contents().push(e),
            final(self).dropped_count() == (if overflowed {
                if old(self).dropped_count() == u64::MAX {
                    u64::MAX
                } else {
                    (old(self).dropped_count() + 1) as u64
                }
            } else {
                old(self).dropped_count()
            }),
    {
        let mut overflowed = false;
        if self.inner.len() >= self.cap {
            let _ = self.inner.pop_front();
            self.dropped = self.dropped.saturating_add(1);
            overflowed = true;
        }
        self.inner.push_back(e);
        overflowed
    }

    /// Remove and return the oldest event.
    pub fn pop(&mut self) -> (r: Option<Event>)
        requires
            old(self).wf(),
        ensures
            final(self).wf(),
            final(self).capacity() == old(self).capacity(),
            final(self).dropped_count() == old(self).dropped_count(),
            match r {
                Some(e) => old(self).contents().len() > 0 && e == old(self).contents()[0]
                    && final(self).contents() == old(self).contents().drop_first(),
                None => old(self).contents().len() == 0 && final(self).contents() == old(self).contents(),
            },
    {
        let r = self.inner.pop_front();
        proof {
            if r is Some {
                assert(old(self).contents().drop_first() =~= self.contents());
            }
        }
        r
    }

    pub fn len(&self) -> (r: usize)
        ensures
            r == self.contents().len(),
    {
        self.inner.len()
    }

    /// Events dropped so far (saturating).
    pub fn dropped(&self) -> (r: u64)
        ensures
            r == self.dropped_count(),
    {
        self.dropped
    }
}

/// A queue never holds more events than its capacity, which is at least one.
pub proof fn lemma_queue_bounded(q: DropOldestQueue)
    requires
        q.wf(),
    ensures
        1 <= q.capacity(),
        q.contents().len() <= q.capacity(),
{
}

} // verus!
