//! The future-event queue: earliest virtual time first, ties broken by
//! insertion order.
//!
//! Every inserted event receives a sequence number from a monotone counter,
//! so the pair `(time, seq)` is unique and the pop order is a deterministic
//! function of the insertion history. This first-in-first-out tie-break is
//! what makes equal-time dispatch reproducible.
use vstd::prelude::*;
use crate::events::Event;

verus! {

/// An event together with the sequence number it was inserted under.
pub struct PendingEvent {
    pub seq: u64,
    pub event: Event,
}

/// `a` is dispatched strictly before `b`.
pub open spec fn dispatched_before(a: PendingEvent, b: PendingEvent) -> bool {
    a.event.time < b.event.time || (a.event.time == b.event.time && a.seq < b.seq)
}

/// Min-queue of future events keyed by `(time, seq)`.
pub struct EventQueue {
    entries: Vec<PendingEvent>,
    next_seq: u64,
}

impl EventQueue {
    /// The pending entries, in insertion order.
    pub closed spec fn view(&self) -> Seq<PendingEvent> {
        self.entries@
    }

    pub closed spec fn spec_next_seq(&self) -> u64 {
        self.next_seq
    }

    /// Sequence numbers are pairwise distinct and below the counter, so
    /// `(time, seq)` orders any two entries strictly.
    pub open spec fn wf(&self) -> bool {
        &&& forall|i: int| 0 <= i < self@.len() ==> (#[trigger] self@[i].seq) < self.spec_next_seq()
        &&& forall|i: int, j: int|
            0 <= i < j < self@.len() ==> (#[trigger] self@[i].seq) != (#[trigger] self@[j].seq)
    }

    /// All queued events are due at `t` or later.
    pub open spec fn none_before(&self, t: u64) -> bool {
        forall|i: int| 0 <= i < self@.len() ==> (#[trigger] self@[i].event).time >= t
    }

    pub fn new() -> (r: Self)
        ensures
            r@ == Seq::<PendingEvent>::empty(),
            r.wf(),
    {
        EventQueue { entries: Vec::new(), next_seq: 0 }
    }

    pub fn len(&self) -> (r: usize)
        ensures
            r == self@.len(),
    {
        self.entries.len()
    }

    /// Insert `event`; it is dispatched after every already-queued event of
    /// a strictly earlier time, and after those of the same time. Should the
    /// sequence counter ever be exhausted, the queue could no longer order
    /// ties deterministically, so it drops the event instead.
    pub fn push(&mut self, event: Event)
        requires
            old(self).wf(),
        ensures
            final(self).wf(),
            old(self).spec_next_seq() < u64::MAX ==> final(self)@ == old(self)@.push(
                PendingEvent { seq: old(self).spec_next_seq(), event },
            ),
            old(self).spec_next_seq() == u64::MAX ==> final(self)@ == old(self)@,
            final(self).spec_next_seq() >= old(self).spec_next_seq(),
            final(self).spec_next_seq() <= old(self).spec_next_seq() + 1,
    {
        if self.next_seq == u64::MAX {
            return ;
        }
        let seq = self.next_seq;
        self.next_seq = self.next_seq + 1;
        self.entries.push(PendingEvent { seq, event });
    }

    /// The earliest due time among the queued events, if any.
    pub fn peek_time(&self) -> (r: Option<u64>)
        ensures
            match r {
                Option::None => self@.len() == 0,
                Option::Some(t) => {
                    &&& self@.len() > 0
                    &&& exists|i: int| 0 <= i < self@.len() && (#[trigger] self@[i].event).time == t
                    &&& forall|i: int| 0 <= i < self@.len() ==> (#[trigger] self@[i].event).time >= t
                },
            },
    {
        if self.entries.len() == 0 {
            return Option::None;
        }
        let mut best: u64 = self.entries[0].event.time;
        let mut k: usize = 1;
        while k < self.entries.len()
            invariant
                1 <= k <= self@.len(),
                exists|i: int| 0 <= i < k && (#[trigger] self@[i].event).time == best,
                forall|i: int| 0 <= i < k ==> (#[trigger] self@[i].event).time >= best,
            decreases self@.len() - k,
        {
            if self.entries[k].event.time < best {
                best = self.entries[k].event.time;
            }
            k += 1;
        }
        Option::Some(best)
    }

    /// Remove and return the entry scheduled first: the unique entry that
    /// `dispatched_before` every other queued entry.
    pub fn pop(&mut self) -> (r: Option<Event>)
        requires
            old(self).wf(),
        ensures
            final(self).wf(),
            final(self).spec_next_seq() == old(self).spec_next_seq(),
            match r {
                Option::None => old(self)@.len() == 0 && *final(self) == *old(self),
                Option::Some(e) => {
                    &&& old(self)@.len() > 0
                    &&& exists|i: int|
                        {
                            &&& 0 <= i < old(self)@.len()
                            &&& e == (#[trigger] old(self)@[i]).event
                            &&& final(self)@ == old(self)@.remove(i)
                            &&& forall|j: int|
                                0 <= j < old(self)@.len() && j != i ==> dispatched_before(
                                    old(self)@[i],
                                    #[trigger] old(self)@[j],
                                )
                        }
                },
            },
    {
        if self.entries.len() == 0 {
            return Option::None;
        }
        let ghost q0 = self@;
        let mut best: usize = 0;
        let mut k: usize = 1;
        while k < self.entries.len()
            invariant
                self@ == q0,
                self.wf(),
                1 <= k <= self@.len(),
                0 <= best < k,
                forall|j: int|
                    0 <= j < k && j != best ==> dispatched_before(
                        self@[best as int],
                        #[trigger] self@[j],
                    ),
            decreases self@.len() - k,
        {
            let cand_time = self.entries[k].event.time;
            let cand_seq = self.entries[k].seq;
            let best_time = self.entries[best].event.time;
            let best_seq = self.entries[best].seq;
            if cand_time < best_time || (cand_time == best_time && cand_seq < best_seq) {
                best = k;
            }
            k += 1;
        }
        let picked = self.entries.remove(best);
        Option::Some(picked.event)
    }
}

} // verus!
