use vstd::prelude::*;

verus! {

/// What `get_runtime` does with an app's runtime slot.
#[derive(Clone, Copy, Debug, PartialEq, Eq, Structural)]
pub enum SlotDecision {
    /// A worker is live: send to it.
    Reuse(u64),
    /// The slot was empty: start the worker with this id; it now fills the
    /// slot.
    Spawn(u64),
    /// Every worker id has been handed out; nothing was started.
    Exhausted,
}

/// What happens to an app's runtime slot.
pub enum SlotEvent {
    /// A request asks for the app's worker.
    Get,
    /// The worker with this id exited and its channel closed.
    Closed(u64),
}

/// An app's slot, the id the next worker gets, and the workers that were
/// started and have not exited yet.
pub struct SlotTrace {
    pub current: Option<u64>,
    pub next_worker: u64,
    pub running: Set<u64>,
}

/// One event: a request on an empty slot starts a worker, which fills the
/// slot and runs; an exit stops that worker and empties the slot if it
/// named it.
pub open spec fn trace_step(t: SlotTrace, e: SlotEvent) -> SlotTrace {
    match e {
        SlotEvent::Get => if t.current is None && t.next_worker < u64::MAX {
            SlotTrace {
                current: Some(t.next_worker),
                next_worker: (t.next_worker + 1) as u64,
                running: t.running.insert(t.next_worker),
            }
        } else {
            t
        },
        SlotEvent::Closed(id) => SlotTrace {
            current: if t.current == Some(id) {
                None
            } else {
                t.current
            },
            next_worker: t.next_worker,
            running: t.running.remove(id),
        },
    }
}

/// An app's runtime slot: the worker that currently serves the app, if
/// any, and the id the next worker gets.
pub struct RuntimeSlot {
    current: Option<u64>,
    next_worker: u64,
    running: Ghost<Set<u64>>,
}

impl RuntimeSlot {
    pub closed spec fn trace(&self) -> SlotTrace {
        SlotTrace { current: self.current, next_worker: self.next_worker, running: self.running@ }
    }

    /// The workers of this app that are running.
    pub open spec fn live_workers(&self) -> Set<u64> {
        self.trace().running
    }

    /// Every running worker is the one in the slot, and the slot's worker
    /// was handed out before.
    pub open spec fn wf(&self) -> bool {
        &&& self.trace().running.finite()
        &&& forall|w: u64| #[trigger]
            self.trace().running.contains(w) ==> self.trace().current == Some(w)
        &&& self.trace().current is Some ==> self.trace().current->0 < self.trace().next_worker
    }

    pub fn new() -> (s: RuntimeSlot)
        ensures
            s.wf(),
            s.trace() == (SlotTrace { current: None, next_worker: 0, running: Set::empty() }),
    {
        RuntimeSlot { current: None, next_worker: 0, running: Ghost(Set::empty()) }
    }

    /// Whether a worker is live for the app.
    pub fn is_live(&self) -> (r: bool)
        ensures
            r == self.trace().current is Some,
    {
        self.current.is_some()
    }

    /// Hands out the live worker, or starts one where the slot is empty.
    pub fn get_runtime(&mut self) -> (d: SlotDecision)
        requires
            old(self).wf(),
        ensures
            final(self).wf(),
            final(self).trace() == trace_step(old(self).trace(), SlotEvent::Get),
            d == match old(self).trace().current {
                Some(w) => SlotDecision::Reuse(w),
                None => if old(self).trace().next_worker < u64::MAX {
                    SlotDecision::Spawn(old(self).trace().next_worker)
                } else {
                    SlotDecision::Exhausted
                },
            },
    {
        match self.current {
            Some(w) => SlotDecision::Reuse(w),
            None => {
                if self.next_worker == u64::MAX {
                    return SlotDecision::Exhausted;
                }
                let id = self.next_worker;
                self.current = Some(id);
                self.next_worker = id + 1;
                self.running = Ghost(self.running@.insert(id));
                SlotDecision::Spawn(id)
            },
        }
    }

    /// Worker `id` has exited and its channel closed: the slot empties if
    /// it still names that worker.
    pub fn worker_closed(&mut self, id: u64)
        requires
            old(self).wf(),
        ensures
            final(self).wf(),
            final(self).trace() == trace_step(old(self).trace(), SlotEvent::Closed(id)),
    {
        if self.current == Some(id) {
            self.current = None;
        }
        self.running = Ghost(self.running@.remove(id));
    }
}

/// An app never has more than one live worker.
pub proof fn lemma_at_most_one_live_worker(slot: &RuntimeSlot)
    requires
        slot.wf(),
    ensures
        slot.live_workers().len() <= 1,
{
    let t = slot.trace();
    if t.current is Some {
        assert(t.running.subset_of(set![t.current->0]));
        vstd::set_lib::lemma_len_subset(t.running, set![t.current->0]);
    } else {
        assert(t.running =~= Set::empty());
    }
}

} // verus!
