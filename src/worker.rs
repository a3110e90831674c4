use vstd::prelude::*;

verus! {

/// How long a worker may wait for a request before it is reaped.
pub const IDLE_TIMEOUT_MS: u64 = 5000;

/// How many requests may wait in one worker's queue.
pub const QUEUE_CAPACITY: usize = 10;

/// What reaches a worker's request loop.
#[derive(Clone, Copy, Debug, PartialEq, Eq, Structural)]
pub enum WorkerEvent {
    /// A request was dequeued at this instant.
    Request { at_ms: u64 },
    /// The idle timer was checked at this instant.
    Timer { now_ms: u64 },
}

/// What the request loop does with an event.
#[derive(Clone, Copy, Debug, PartialEq, Eq, Structural)]
pub enum WorkerAction {
    /// Run the script on the request and reply.
    Serve,
    /// Keep waiting.
    Wait,
    /// Terminate the isolate and leave the loop.
    Terminate,
    /// The worker is gone; the event reaches nobody.
    Discard,
}

/// The request loop's state: whether it still runs, and when it last
/// took a request (or started).
#[derive(Clone, Copy, Debug, PartialEq, Eq, Structural)]
pub struct WorkerState {
    pub alive: bool,
    pub last_activity_ms: u64,
}

pub open spec fn event_time(e: WorkerEvent) -> u64 {
    match e {
        WorkerEvent::Request { at_ms } => at_ms,
        WorkerEvent::Timer { now_ms } => now_ms,
    }
}

/// The idle window has run out at `now`.
pub open spec fn idle_expired(last: u64, now: u64) -> bool {
    now >= last + IDLE_TIMEOUT_MS
}

/// One step of the request loop.
pub open spec fn step(s: WorkerState, e: WorkerEvent) -> (WorkerState, WorkerAction) {
    if !s.alive {
        (s, WorkerAction::Discard)
    } else if idle_expired(s.last_activity_ms, event_time(e)) {
        (WorkerState { alive: false, last_activity_ms: s.last_activity_ms }, WorkerAction::Terminate)
    } else {
        match e {
            WorkerEvent::Request { at_ms } => (
                WorkerState {
                    alive: true,
                    last_activity_ms: if at_ms > s.last_activity_ms {
                        at_ms
                    } else {
                        s.last_activity_ms
                    },
                },
                WorkerAction::Serve,
            ),
            WorkerEvent::Timer { .. } => (s, WorkerAction::Wait),
        }
    }
}

/// The actions of the loop over a series of events, from state `s`.
pub open spec fn run_actions(s: WorkerState, es: Seq<WorkerEvent>) -> Seq<WorkerAction>
    decreases es.len(),
{
    if es.len() == 0 {
        Seq::empty()
    } else {
        let (s2, a) = step(s, es[0]);
        seq![a] + run_actions(s2, es.drop_first())
    }
}

/// A worker that has just been spawned at `now_ms`.
pub fn worker_start(now_ms: u64) -> (s: WorkerState)
    ensures
        s == (WorkerState { alive: true, last_activity_ms: now_ms }),
{
    WorkerState { alive: true, last_activity_ms: now_ms }
}

/// Decides what the request loop does with `event`, and moves its state on.
pub fn worker_step(state: &mut WorkerState, event: WorkerEvent) -> (a: WorkerAction)
    ensures
        (*final(state), a) == step(*old(state), event),
{
    if !state.alive {
        return WorkerAction::Discard;
    }
    let now = match event {
        WorkerEvent::Request { at_ms } => at_ms,
        WorkerEvent::Timer { now_ms } => now_ms,
    };
    if now >= state.last_activity_ms && now - state.last_activity_ms >= IDLE_TIMEOUT_MS {
        state.alive = false;
        return WorkerAction::Terminate;
    }
    match event {
        WorkerEvent::Request { at_ms } => {
            if at_ms > state.last_activity_ms {
                state.last_activity_ms = at_ms;
            }
            WorkerAction::Serve
        },
        WorkerEvent::Timer { .. } => WorkerAction::Wait,
    }
}

/// A worker that sees an event after a full idle window is reaped, and
/// serves nothing from then on, whatever arrives.
pub proof fn lemma_idle_worker_serves_no_more(s: WorkerState, es: Seq<WorkerEvent>)
    requires
        s.alive,
        es.len() > 0,
        idle_expired(s.last_activity_ms, event_time(es[0])),
    ensures
        run_actions(s, es)[0] == WorkerAction::Terminate,
        forall|i: int| 0 <= i < es.len() ==> run_actions(s, es)[i] != WorkerAction::Serve,
{
    let s2 = step(s, es[0]).0;
    lemma_reaped_worker_is_silent(s2, es.drop_first());
    assert(run_actions(s, es) == seq![WorkerAction::Terminate] + run_actions(s2, es.drop_first()));
}

/// A request that arrives inside the idle window is served and restarts the
/// window from its arrival; one that arrives when the window has run out
/// finds the worker reaped instead.
pub proof fn lemma_request_restarts_idle_window(s: WorkerState, at_ms: u64)
    requires
        s.alive,
        s.last_activity_ms <= at_ms,
    ensures
        at_ms < s.last_activity_ms + IDLE_TIMEOUT_MS ==> step(s, WorkerEvent::Request { at_ms })
            == (WorkerState { alive: true, last_activity_ms: at_ms }, WorkerAction::Serve),
        at_ms >= s.last_activity_ms + IDLE_TIMEOUT_MS ==> step(s, WorkerEvent::Request { at_ms }).1
            == WorkerAction::Terminate,
{
}

proof fn lemma_reaped_worker_is_silent(s: WorkerState, es: Seq<WorkerEvent>)
    requires
        !s.alive,
    ensures
        run_actions(s, es).len() == es.len(),
        forall|i: int| 0 <= i < es.len() ==> run_actions(s, es)[i] == WorkerAction::Discard,
    decreases es.len(),
{
    if es.len() > 0 {
        lemma_reaped_worker_is_silent(s, es.drop_first());
        let rest = run_actions(s, es.drop_first());
        assert forall|i: int| 0 <= i < es.len() implies run_actions(s, es)[i]
            == WorkerAction::Discard by {
            if i > 0 {
                assert(run_actions(s, es)[i] == rest[i - 1]);
            }
        }
    }
}

/// A worker's bounded first-in first-out request queue.
pub struct RequestQueue<T> {
    items: Vec<T>,
}

impl<T> RequestQueue<T> {
    pub closed spec fn view(&self) -> Seq<T> {
        self.items@
    }

    pub fn new() -> (q: RequestQueue<T>)
        ensures
            q.view() == Seq::<T>::empty(),
    {
        RequestQueue { items: Vec::new() }
    }

    pub fn len(&self) -> (n: usize)
        ensures
            n == self.view().len(),
    {
        self.items.len()
    }

    /// Enqueues `item` at the back; a full queue hands it back, and the
    /// producer has to wait for room.
    pub fn try_send(&mut self, item: T) -> (r: Result<(), T>)
        requires
            old(self).view().len() <= QUEUE_CAPACITY,
        ensures
            final(self).view().len() <= QUEUE_CAPACITY,
            old(self).view().len() < QUEUE_CAPACITY ==> r is Ok
                && final(self).view() == old(self).view().push(item),
            old(self).view().len() == QUEUE_CAPACITY ==> r == Err::<(), T>(item)
                && final(self).view() == old(self).view(),
    {
        if self.items.len() >= QUEUE_CAPACITY {
            Err(item)
        } else {
            self.items.push(item);
            Ok(())
        }
    }

    /// Takes the oldest request, if any.
    pub fn recv(&mut self) -> (r: Option<T>)
        ensures
            old(self).view().len() == 0 ==> r is None && final(self).view() == old(self).view(),
            old(self).view().len() > 0 ==> r == Some(old(self).view()[0]) && final(self).view()
                == old(self).view().drop_first(),
    {
        if self.items.len() == 0 {
            None
        } else {
            let x = self.items.remove(0);
            assert(self.items@ =~= old(self).view().drop_first());
            Some(x)
        }
    }
}

} // verus!
