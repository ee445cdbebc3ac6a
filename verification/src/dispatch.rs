//! The main loop of the monitor, as far as it decides: which events of the
//! network layer start the tracking of a request, and what to wait for next.

use crate::monitor::RequestTracker;
use vstd::prelude::*;

verus! {

/// What the network layer reports of a sharing session.
#[derive(Clone, Copy, Debug, PartialEq, Eq)]
pub enum ProviderEvent {
    /// A client has connected.
    ClientConnected,
    /// A connection was closed.
    ConnectionClosed,
    /// A request has come in; its updates follow on a stream of their own.
    RequestReceived { connection_id: u64, request_id: u64 },
    /// Anything else.
    Other,
}

/// What the loop of the monitor waits for.
#[derive(Clone, Copy, Debug, PartialEq, Eq)]
pub enum Wait {
    /// For the next event of the network layer.
    Event,
    /// For the next event of the network layer or the end of a request's
    /// updates, whichever comes first; an event goes first if both are
    /// there.
    EventOrRequestEnd,
    /// For the end of a request's updates.
    RequestEnd,
    /// For nothing more: the loop ends.
    Nothing,
}

/// What the loop waits for: for events while the network layer may send
/// any, and for the requests that are still being tracked. It ends only when
/// the network layer has closed and the updates of every request have ended.
pub open spec fn wait_of(upstream_open: bool, requests_running: bool) -> Wait {
    if upstream_open {
        if requests_running {
            Wait::EventOrRequestEnd
        } else {
            Wait::Event
        }
    } else {
        if requests_running {
            Wait::RequestEnd
        } else {
            Wait::Nothing
        }
    }
}

/// Decides what the loop waits for next.
pub fn next_wait(upstream_open: bool, requests_running: bool) -> (wait: Wait)
    ensures
        wait == wait_of(upstream_open, requests_running),
        wait is Nothing <==> !upstream_open && !requests_running,
{
    if upstream_open {
        if requests_running {
            Wait::EventOrRequestEnd
        } else {
            Wait::Event
        }
    } else {
        if requests_running {
            Wait::RequestEnd
        } else {
            Wait::Nothing
        }
    }
}

/// The tracker for the request that an event brings, if it brings one: only
/// a request that has come in is tracked.
pub fn tracker_for(event: &ProviderEvent) -> (tracker: Option<RequestTracker>)
    ensures
        match *event {
            ProviderEvent::RequestReceived { connection_id, request_id } => {
                &&& tracker matches Some(t)
                &&& t.spec_connection_id() == connection_id
                &&& t.spec_request_id() == request_id
                &&& !t.spec_started()
            },
            _ => tracker is None,
        },
{
    match event {
        ProviderEvent::RequestReceived { connection_id, request_id } => Some(
            RequestTracker::new(*connection_id, *request_id),
        ),
        _ => None,
    }
}

} // verus!
