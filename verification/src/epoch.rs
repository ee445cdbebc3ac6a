//! What holds of whole sequences of updates: the laws of a transfer epoch.
//!
//! An epoch is the span in which at least one request for file data is live.
//! The laws here are stated over [`run`], which feeds a sequence of updates
//! to a monitor as [`crate::monitor::TransferMonitor::handle`] does one by
//! one, each request through a tracker of its own.

use crate::monitor::{
    apply_update, consistent, file_keys, initial_state, is_file_data, opens_epoch, session_key,
    MonitorState, Notification, RequestUpdate,
};
use vstd::prelude::*;

verus! {

/// One update as it reaches the monitor: the request that it belongs to, the
/// update, and the time at which it is handled.
pub struct Event {
    pub connection_id: u64,
    pub request_id: u64,
    pub update: RequestUpdate,
    pub now: u64,
}

impl Event {
    /// The key of the request that the update belongs to.
    pub open spec fn key(self) -> u128 {
        session_key(self.connection_id, self.request_id)
    }
}

/// A monitor together with the trackers of all requests: the keys in
/// `started` are those of the requests that count as started.
pub struct System {
    pub monitor: MonitorState,
    pub started: Set<u128>,
}

/// A system and the notifications given so far.
pub struct Trace {
    pub system: System,
    pub notifications: Seq<Notification>,
}

/// The system in which no update has been seen.
pub open spec fn initial_system(total_size: u64) -> System {
    System { monitor: initial_state(total_size), started: Set::empty() }
}

/// The system after one more update.
pub open spec fn system_after(sys: System, event: Event) -> System {
    let outcome = apply_update(
        sys.monitor,
        sys.started.contains(event.key()),
        event.key(),
        event.update,
        event.now,
    );
    System {
        monitor: outcome.state,
        started: if outcome.started {
            sys.started.insert(event.key())
        } else {
            sys.started.remove(event.key())
        },
    }
}

/// The notifications that one more update gives rise to.
pub open spec fn signals_of(sys: System, event: Event) -> Seq<Notification> {
    apply_update(
        sys.monitor,
        sys.started.contains(event.key()),
        event.key(),
        event.update,
        event.now,
    ).notifications
}

/// Feeds a sequence of updates to a system, first to last.
pub open spec fn run(sys: System, events: Seq<Event>) -> Trace
    decreases events.len(),
{
    if events.len() == 0 {
        Trace { system: sys, notifications: Seq::empty() }
    } else {
        let before = run(sys, events.drop_last());
        Trace {
            system: system_after(before.system, events.last()),
            notifications: before.notifications + signals_of(before.system, events.last()),
        }
    }
}

/// How often a notification occurs in a sequence.
pub open spec fn occurrences(notifications: Seq<Notification>, n: Notification) -> nat
    decreases notifications.len(),
{
    if notifications.len() == 0 {
        0
    } else {
        occurrences(notifications.drop_last(), n) + if notifications.last() == n {
            1nat
        } else {
            0nat
        }
    }
}

/// Whether an update, as it reaches this system, opens a new epoch.
pub open spec fn event_opens_epoch(sys: System, event: Event) -> bool {
    opens_epoch(sys.monitor, sys.started.contains(event.key()), event.key(), event.update)
}

/// Whether no update of a run opens a new epoch.
pub open spec fn within_one_epoch(sys: System, events: Seq<Event>) -> bool
    decreases events.len(),
{
    events.len() == 0 || (within_one_epoch(sys, events.drop_last()) && !event_opens_epoch(
        run(sys, events.drop_last()).system,
        events.last(),
    ))
}

/// Occurrences add up over concatenation.
proof fn lemma_occurrences_concat(a: Seq<Notification>, b: Seq<Notification>, n: Notification)
    ensures
        occurrences(a + b, n) == occurrences(a, n) + occurrences(b, n),
    decreases b.len(),
{
    if b.len() == 0 {
        assert(a + b =~= a);
    } else {
        lemma_occurrences_concat(a, b.drop_last(), n);
        assert((a + b).drop_last() =~= a + b.drop_last());
    }
}

/// Every run leaves a consistent system consistent.
pub proof fn lemma_run_keeps_consistent(sys: System, events: Seq<Event>)
    requires
        consistent(sys.monitor),
    ensures
        consistent(run(sys, events).system.monitor),
    decreases events.len(),
{
    if events.len() > 0 {
        lemma_run_keeps_consistent(sys, events.drop_last());
        let before = run(sys, events.drop_last()).system;
        let event = events.last();
        crate::monitor::lemma_update_keeps_consistent(
            before.monitor,
            before.started.contains(event.key()),
            event.key(),
            event.update,
            event.now,
        );
    }
}

/// Whatever updates a monitor has seen since it was made, its state is
/// consistent.
pub proof fn lemma_reachable_is_consistent(total_size: u64, events: Seq<Event>)
    ensures
        consistent(run(initial_system(total_size), events).system.monitor),
{
    crate::monitor::lemma_initial_state_consistent(total_size);
    lemma_run_keeps_consistent(initial_system(total_size), events);
}

/// The byte count of an epoch never falls: an update that does not open a
/// new epoch leaves it as it is or raises it, and one that does sets it to
/// zero.
pub proof fn lemma_bytes_never_fall(
    s: MonitorState,
    started: bool,
    key: u128,
    update: RequestUpdate,
    now: u64,
)
    ensures
        !opens_epoch(s, started, key, update) ==> apply_update(
            s,
            started,
            key,
            update,
            now,
        ).state.cumulative_bytes >= s.cumulative_bytes,
        opens_epoch(s, started, key, update) ==> apply_update(
            s,
            started,
            key,
            update,
            now,
        ).state.cumulative_bytes == 0,
{
}

/// A run in which no update opens a new epoch begins with such runs.
proof fn lemma_within_one_epoch_prefix(sys: System, events: Seq<Event>, k: int)
    requires
        within_one_epoch(sys, events),
        0 <= k <= events.len(),
    ensures
        within_one_epoch(sys, events.take(k)),
    decreases events.len(),
{
    if k == events.len() {
        assert(events.take(k) =~= events);
    } else {
        lemma_within_one_epoch_prefix(sys, events.drop_last(), k);
        assert(events.drop_last().take(k) =~= events.take(k));
    }
}

/// Within one epoch the byte count never falls: in a run in which no update
/// opens a new epoch, the count after any number of updates is at least the
/// count after fewer of them.
pub proof fn lemma_bytes_monotonic(sys: System, events: Seq<Event>, j: int, k: int)
    requires
        within_one_epoch(sys, events),
        0 <= j <= k <= events.len(),
    ensures
        run(sys, events.take(j)).system.monitor.cumulative_bytes <= run(
            sys,
            events.take(k),
        ).system.monitor.cumulative_bytes,
    decreases k - j,
{
    if j < k {
        lemma_bytes_monotonic(sys, events, j, k - 1);
        lemma_within_one_epoch_prefix(sys, events, k);
        let upto = events.take(k);
        assert(upto.drop_last() =~= events.take(k - 1));
        let before = run(sys, events.take(k - 1)).system;
        let event = upto.last();
        lemma_bytes_never_fall(
            before.monitor,
            before.started.contains(event.key()),
            event.key(),
            event.update,
            event.now,
        );
    }
}

/// The end of a transfer is reported exactly when the last live request for
/// file data ends: the update is the end of a request whose session carries
/// file data, and no other live session does. Sessions that hold a part of
/// the manifest have no say in it. No update reports it twice.
pub proof fn lemma_completed_when_last_file_request_ends(
    s: MonitorState,
    started: bool,
    key: u128,
    update: RequestUpdate,
    now: u64,
)
    requires
        consistent(s),
    ensures
        occurrences(
            apply_update(s, started, key, update, now).notifications,
            Notification::TransferCompleted,
        ) == if (update is Completed || update is Aborted) && s.sessions.contains_key(key)
            && is_file_data(s.sessions[key].index) && (forall|other: u128|
            s.sessions.contains_key(other) && other != key ==> !is_file_data(
                #[trigger] s.sessions[other].index,
            )) {
            1nat
        } else {
            0nat
        },
        occurrences(
            apply_update(s, started, key, update, now).notifications,
            Notification::TransferCompleted,
        ) == if s.active_file_requests > 0 && apply_update(
            s,
            started,
            key,
            update,
            now,
        ).state.active_file_requests == 0 {
            1nat
        } else {
            0nat
        },
{
    let outcome = apply_update(s, started, key, update, now);
    let notes = outcome.notifications;
    reveal_with_fuel(occurrences, 3);
    s.sessions.dom().lemma_len_filter(|k: u128| is_file_data(s.sessions[k].index));
    let files = file_keys(s.sessions);
    let alone = forall|other: u128|
        s.sessions.contains_key(other) && other != key ==> !is_file_data(
            #[trigger] s.sessions[other].index,
        );
    match update {
        RequestUpdate::Started { index } => {
            assert(notes.len() <= 1);
            if notes.len() == 1 {
                assert(notes.drop_last().len() == 0);
            }
        },
        RequestUpdate::Progress { end_offset } => {
            assert(notes.len() <= 2);
            if notes.len() == 2 {
                assert(notes.drop_last().len() == 1);
                assert(notes.drop_last().drop_last().len() == 0);
            } else if notes.len() == 1 {
                assert(notes.drop_last().len() == 0);
            }
        },
        RequestUpdate::Completed | RequestUpdate::Aborted => {
            if notes.len() == 1 {
                assert(notes.drop_last().len() == 0);
            }
            if s.sessions.contains_key(key) && is_file_data(s.sessions[key].index) {
                assert(files.contains(key));
                if alone {
                    assert(files =~= set![key]);
                } else {
                    let other = choose|other: u128|
                        s.sessions.contains_key(other) && other != key && is_file_data(
                            #[trigger] s.sessions[other].index,
                        );
                    assert(files.remove(key).contains(other));
                    assert(files.remove(key).len() > 0);
                }
            }
        },
    }
}

/// While a request for file data is live, no update announces a transfer
/// again; and whatever the state, no update announces it twice.
pub proof fn lemma_started_not_repeated(
    s: MonitorState,
    started: bool,
    key: u128,
    update: RequestUpdate,
    now: u64,
)
    requires
        consistent(s),
    ensures
        s.active_file_requests > 0 ==> occurrences(
            apply_update(s, started, key, update, now).notifications,
            Notification::TransferStarted,
        ) == 0,
        occurrences(
            apply_update(s, started, key, update, now).notifications,
            Notification::TransferStarted,
        ) <= 1,
        occurrences(
            apply_update(s, started, key, update, now).notifications,
            Notification::TransferStarted,
        ) == if opens_epoch(s, started, key, update) || (s.epoch_start is None && !started && (
        update is Progress || (update is Started && !s.sessions.contains_key(key)))) {
            1nat
        } else {
            0nat
        },
{
    let notes = apply_update(s, started, key, update, now).notifications;
    reveal_with_fuel(occurrences, 3);
    s.sessions.dom().lemma_len_filter(|k: u128| is_file_data(s.sessions[k].index));
    if s.active_file_requests > 0 {
        assert(s.sessions.dom().len() > 0);
    }
    if notes.len() == 2 {
        assert(notes.drop_last().len() == 1);
        assert(notes.drop_last().drop_last().len() == 0);
    } else if notes.len() == 1 {
        assert(notes.drop_last().len() == 0);
    }
}

/// A run of one more update is the run of the updates before it, followed by
/// that update.
proof fn lemma_run_unfold(sys: System, events: Seq<Event>, k: int)
    requires
        0 <= k < events.len(),
    ensures
        run(sys, events.take(k + 1)).system == system_after(
            run(sys, events.take(k)).system,
            events[k],
        ),
        run(sys, events.take(k + 1)).notifications == run(sys, events.take(k)).notifications
            + signals_of(run(sys, events.take(k)).system, events[k]),
{
    assert(events.take(k + 1).drop_last() =~= events.take(k));
}

/// Whether a run is one epoch: after `quiet` updates during which no
/// request for file data is live, an update opens an epoch; file data stays
/// live after every update from there to the last, and after the last it is
/// not.
pub open spec fn is_one_epoch(sys: System, events: Seq<Event>, quiet: int) -> bool {
    &&& 0 <= quiet < events.len()
    &&& forall|k: int|
        0 <= k <= quiet ==> (#[trigger] run(
            sys,
            events.take(k),
        )).system.monitor.active_file_requests == 0
    &&& event_opens_epoch(run(sys, events.take(quiet)).system, events[quiet])
    &&& forall|k: int|
        quiet < k < events.len() ==> (#[trigger] run(
            sys,
            events.take(k),
        )).system.monitor.active_file_requests > 0
    &&& run(sys, events).system.monitor.active_file_requests == 0
}

/// Where no request for file data is live, no session carries file data.
proof fn lemma_no_file_session(s: MonitorState, key: u128)
    requires
        consistent(s),
        s.active_file_requests == 0,
    ensures
        !(s.sessions.contains_key(key) && is_file_data(s.sessions[key].index)),
{
    s.sessions.dom().lemma_len_filter(|k: u128| is_file_data(s.sessions[k].index));
    if s.sessions.contains_key(key) && is_file_data(s.sessions[key].index) {
        assert(file_keys(s.sessions).contains(key));
    }
}

/// While no request for file data is live, a monitor that has announced a
/// transfer before gives no notification.
proof fn lemma_quiet_beginning(sys: System, events: Seq<Event>, quiet: int, k: int)
    requires
        consistent(sys.monitor),
        is_one_epoch(sys, events, quiet),
        quiet > 0 ==> sys.monitor.epoch_start is Some,
        0 <= k <= quiet,
    ensures
        consistent(run(sys, events.take(k)).system.monitor),
        run(sys, events.take(k)).notifications == Seq::<Notification>::empty(),
        quiet > 0 ==> run(sys, events.take(k)).system.monitor.epoch_start is Some,
    decreases k,
{
    if k == 0 {
        assert(events.take(0) =~= Seq::<Event>::empty());
    } else {
        lemma_quiet_beginning(sys, events, quiet, k - 1);
        lemma_run_unfold(sys, events, k - 1);
        let before = run(sys, events.take(k - 1));
        let after = run(sys, events.take(k));
        let event = events[k - 1];
        lemma_run_keeps_consistent(sys, events.take(k));
        lemma_no_file_session(before.system.monitor, event.key());
        assert(before.system.monitor.active_file_requests == 0);
        assert(after.system.monitor.active_file_requests == 0);
        assert(signals_of(before.system, event) =~= Seq::<Notification>::empty());
        assert(before.notifications + signals_of(before.system, event)
            =~= Seq::<Notification>::empty());
    }
}

/// In an epoch that has begun and not ended, one transfer has been
/// announced, first of all, and no end has been reported.
proof fn lemma_epoch_in_progress(sys: System, events: Seq<Event>, quiet: int, k: int)
    requires
        consistent(sys.monitor),
        is_one_epoch(sys, events, quiet),
        quiet > 0 ==> sys.monitor.epoch_start is Some,
        quiet < k < events.len(),
    ensures
        consistent(run(sys, events.take(k)).system.monitor),
        run(sys, events.take(k)).notifications.len() >= 1,
        run(sys, events.take(k)).notifications[0] == Notification::TransferStarted,
        occurrences(run(sys, events.take(k)).notifications, Notification::TransferStarted) == 1,
        occurrences(run(sys, events.take(k)).notifications, Notification::TransferCompleted)
            == 0,
    decreases k,
{
    lemma_run_keeps_consistent(sys, events.take(k));
    lemma_run_unfold(sys, events, k - 1);
    let before = run(sys, events.take(k - 1));
    let event = events[k - 1];
    let signals = signals_of(before.system, event);
    lemma_occurrences_concat(before.notifications, signals, Notification::TransferStarted);
    lemma_occurrences_concat(before.notifications, signals, Notification::TransferCompleted);
    if k == quiet + 1 {
        lemma_quiet_beginning(sys, events, quiet, quiet);
        assert(signals =~= seq![Notification::TransferStarted]);
        reveal_with_fuel(occurrences, 2);
        assert(signals.drop_last().len() == 0);
        assert(before.notifications + signals =~= signals);
    } else {
        lemma_epoch_in_progress(sys, events, quiet, k - 1);
        lemma_started_not_repeated(
            before.system.monitor,
            before.system.started.contains(event.key()),
            event.key(),
            event.update,
            event.now,
        );
        lemma_completed_when_last_file_request_ends(
            before.system.monitor,
            before.system.started.contains(event.key()),
            event.key(),
            event.update,
            event.now,
        );
    }
}

/// An epoch is announced once and its end is reported once.
///
/// Take a run that is one epoch: an update opens it, file data stays live
/// until the last update, and that one ends the last request for file data.
/// Let the epoch open with the first update, or the monitor have announced a
/// transfer before. Whatever else happens in the run, and whether or not the
/// sessions that hold parts of the manifest ever end: the run announces one
/// transfer, before any other notification, and reports one end, last of
/// all.
pub proof fn lemma_epoch_signalled_once(sys: System, events: Seq<Event>, quiet: int)
    requires
        consistent(sys.monitor),
        is_one_epoch(sys, events, quiet),
        quiet > 0 ==> sys.monitor.epoch_start is Some,
    ensures
        occurrences(run(sys, events).notifications, Notification::TransferStarted) == 1,
        occurrences(run(sys, events).notifications, Notification::TransferCompleted) == 1,
        run(sys, events).notifications.first() == Notification::TransferStarted,
        run(sys, events).notifications.last() == Notification::TransferCompleted,
{
    let n = events.len() as int;
    assert(events.take(n) =~= events);
    lemma_run_unfold(sys, events, n - 1);
    assert(n >= quiet + 2) by {
        if n == quiet + 1 {
            assert(run(sys, events).system.monitor.active_file_requests == run(
                sys,
                events.take(quiet),
            ).system.monitor.active_file_requests + 1);
        }
    }
    lemma_epoch_in_progress(sys, events, quiet, n - 1);
    let before = run(sys, events.take(n - 1));
    let event = events[n - 1];
    let signals = signals_of(before.system, event);
    lemma_occurrences_concat(before.notifications, signals, Notification::TransferStarted);
    lemma_occurrences_concat(before.notifications, signals, Notification::TransferCompleted);
    lemma_started_not_repeated(
        before.system.monitor,
        before.system.started.contains(event.key()),
        event.key(),
        event.update,
        event.now,
    );
    lemma_completed_when_last_file_request_ends(
        before.system.monitor,
        before.system.started.contains(event.key()),
        event.key(),
        event.update,
        event.now,
    );
    assert(signals =~= seq![Notification::TransferCompleted]);
}

} // verus!
