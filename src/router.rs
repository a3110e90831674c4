use vstd::prelude::*;

use crate::app::App;
use crate::text::same_text;

verus! {

/// Which app a request goes to.
#[derive(Clone, Copy, Debug, PartialEq, Eq, Structural)]
pub enum RouteDecision {
    /// The app at this index of the current list.
    Dispatch(usize),
    /// No app fits: answer `400`.
    BadRequest,
}

/// How handing a request to a worker ended.
#[derive(Clone, Copy, Debug, PartialEq, Eq, Structural)]
pub enum DispatchOutcome {
    /// The worker replied with this status.
    Replied(u16),
    /// The worker's channel closed between reading the slot and sending.
    ChannelClosed,
    /// The worker dropped the reply channel without answering.
    ReplyDropped,
}

/// A failure on the way from a request to its response.
#[derive(Clone, Copy, Debug, PartialEq, Eq, Structural)]
pub enum FailureKind {
    /// The app's worker could not take the request just then.
    WorkerUnavailable,
    /// The request could not be handed to a script (no `Host`).
    MalformedRequest,
    /// The script left no response when its event loop ran dry.
    NoResponse,
    /// The script threw or its isolate failed.
    ScriptFailed,
}

pub const STATUS_BAD_REQUEST: u16 = 400;
pub const STATUS_INTERNAL_ERROR: u16 = 500;
pub const STATUS_BAD_GATEWAY: u16 = 502;
pub const STATUS_UNAVAILABLE: u16 = 503;

/// Index `i` holds the first app named `h`.
pub open spec fn first_named(apps: Seq<App>, h: Seq<char>, i: int) -> bool {
    &&& 0 <= i < apps.len()
    &&& apps[i].name@ == h
    &&& forall|j: int| 0 <= j < i ==> (#[trigger] apps[j]).name@ != h
}

/// `r` is the route of a request with `x-app` header `header`, if it has
/// one: the first app of that name, and `400` where none has it; without
/// the header, the first app of the list, and `400` where the list is empty.
pub open spec fn routes_to(apps: Seq<App>, header: Option<Seq<char>>, r: RouteDecision) -> bool {
    match header {
        Some(h) => match r {
            RouteDecision::Dispatch(i) => first_named(apps, h, i as int),
            RouteDecision::BadRequest => forall|i: int| 0 <= i < apps.len() ==> (#[trigger] apps[i]).name@ != h,
        },
        None => r == if apps.len() > 0 {
            RouteDecision::Dispatch(0)
        } else {
            RouteDecision::BadRequest
        },
    }
}

pub open spec fn opt_str(o: Option<&str>) -> Option<Seq<char>> {
    match o {
        Some(s) => Some(s@),
        None => None,
    }
}

/// Picks the app a request goes to from its `x-app` header.
pub fn select_app(apps: &Vec<App>, x_app: Option<&str>) -> (r: RouteDecision)
    ensures
        routes_to(apps@, opt_str(x_app), r),
        r matches RouteDecision::Dispatch(i) ==> i < apps@.len(),
{
    match x_app {
        None => if apps.len() > 0 {
            RouteDecision::Dispatch(0)
        } else {
            RouteDecision::BadRequest
        },
        Some(h) => {
            let mut i: usize = 0;
            while i < apps.len()
                invariant
                    i <= apps@.len(),
                    opt_str(x_app) == Some(h@),
                    forall|j: int| 0 <= j < i ==> (#[trigger] apps@[j]).name@ != h@,
                decreases apps@.len() - i,
            {
                if same_text(apps[i].name.as_str(), h) {
                    return RouteDecision::Dispatch(i);
                }
                i += 1;
            }
            RouteDecision::BadRequest
        },
    }
}

/// The status the router answers with once dispatch has ended.
pub fn response_status(outcome: DispatchOutcome) -> (s: u16)
    ensures
        s == match outcome {
            DispatchOutcome::Replied(code) => code,
            DispatchOutcome::ChannelClosed => STATUS_UNAVAILABLE,
            DispatchOutcome::ReplyDropped => STATUS_BAD_GATEWAY,
        },
{
    match outcome {
        DispatchOutcome::Replied(code) => code,
        DispatchOutcome::ChannelClosed => STATUS_UNAVAILABLE,
        DispatchOutcome::ReplyDropped => STATUS_BAD_GATEWAY,
    }
}

/// The status a failure is answered with.
pub fn failure_status(kind: FailureKind) -> (s: u16)
    ensures
        s == match kind {
            FailureKind::WorkerUnavailable => STATUS_UNAVAILABLE,
            FailureKind::MalformedRequest => STATUS_BAD_REQUEST,
            FailureKind::NoResponse => STATUS_BAD_GATEWAY,
            FailureKind::ScriptFailed => STATUS_INTERNAL_ERROR,
        },
{
    match kind {
        FailureKind::WorkerUnavailable => STATUS_UNAVAILABLE,
        FailureKind::MalformedRequest => STATUS_BAD_REQUEST,
        FailureKind::NoResponse => STATUS_BAD_GATEWAY,
        FailureKind::ScriptFailed => STATUS_INTERNAL_ERROR,
    }
}

/// Whether the worker stays in its slot after a failure: only a script that
/// threw, or a failed isolate, costs the worker.
pub fn keeps_worker(kind: FailureKind) -> (r: bool)
    ensures
        r == !(kind == FailureKind::ScriptFailed),
{
    match kind {
        FailureKind::ScriptFailed => false,
        _ => true,
    }
}

/// A request naming an app that the list does not hold is answered `400`.
pub proof fn lemma_unknown_app_rejected(apps: Seq<App>, h: Seq<char>, r: RouteDecision)
    requires
        forall|i: int| 0 <= i < apps.len() ==> (#[trigger] apps[i]).name@ != h,
        routes_to(apps, Some(h), r),
    ensures
        r == RouteDecision::BadRequest,
{
    if let RouteDecision::Dispatch(i) = r {
        assert(apps[i as int].name@ == h);
    }
}

} // verus!
