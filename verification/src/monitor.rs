//! Aggregation of per-request transfer updates into the three notifications
//! that a sharing session shows to its user.
//!
//! Every request is identified by its connection and request ids. The
//! monitor keeps one session per live request and one aggregate for all of
//! them; a [`RequestTracker`] stands for the stream of updates of one request
//! and feeds them to the monitor one by one.

use std::collections::HashMap;
use vstd::prelude::*;

verus! {

/// Index of the first blob of a transfer that carries file data. The two
/// blobs before it hold the manifest.
pub const FIRST_PAYLOAD_INDEX: u64 = 2;

/// Number of nanoseconds in a second.
pub const NANOS_PER_SECOND: u64 = 1_000_000_000;

/// Largest speed that is reported, in thousandths of a byte per second.
pub const MAX_SPEED: u64 = 0x7fff_ffff_ffff_ffff;

/// Whether a blob index names file data rather than a part of the manifest.
pub open spec fn is_file_data(index: u64) -> bool {
    index >= FIRST_PAYLOAD_INDEX
}

/// The key under which the session of a request is kept.
pub open spec fn session_key(connection_id: u64, request_id: u64) -> u128 {
    (connection_id as int * 0x1_0000_0000_0000_0000 + request_id as int) as u128
}

/// Distinct requests have distinct keys.
pub proof fn lemma_session_key_injective(c1: u64, r1: u64, c2: u64, r2: u64)
    ensures
        session_key(c1, r1) == session_key(c2, r2) <==> (c1 == c2 && r1 == r2),
{
}

/// What the monitor remembers of one live request.
#[derive(Clone, Copy, Debug, PartialEq, Eq)]
pub struct TransferSession {
    /// When the request started, in nanoseconds of the caller's clock.
    pub start_time: u64,
    /// Number of bytes that the whole transfer is expected to move.
    pub total_size: u64,
    /// The offset that the request reported last.
    pub last_offset: u64,
    /// Index of the blob that the request asked for first.
    pub index: u64,
}

/// One update in the life of a request.
#[derive(Clone, Copy, Debug, PartialEq, Eq)]
pub enum RequestUpdate {
    /// The transfer of the blob with this index has started.
    Started { index: u64 },
    /// The transfer has reached this offset.
    Progress { end_offset: u64 },
    /// The request ended with success.
    Completed,
    /// The request was given up.
    Aborted,
}

/// A signal for the user of the sharing session.
#[derive(Clone, Copy, Debug, PartialEq, Eq)]
pub enum Notification {
    /// A transfer has begun.
    TransferStarted,
    /// File data has moved: the bytes moved so far in this epoch, the
    /// expected total, and the mean speed in thousandths of a byte per
    /// second.
    TransferProgress { bytes: u64, total: u64, speed: u64 },
    /// The last request for file data has ended.
    TransferCompleted,
}

/// The mathematical state of a monitor.
pub struct MonitorState {
    /// The live sessions, by session key.
    pub sessions: Map<u128, TransferSession>,
    /// Bytes of file data moved in the current epoch.
    pub cumulative_bytes: u64,
    /// When the current epoch was announced, if it was.
    pub epoch_start: Option<u64>,
    /// Number of live requests for file data.
    pub active_file_requests: nat,
    /// Number of bytes that a whole transfer is expected to move.
    pub total_size: u64,
}

/// What one update does: the state after it, whether the request counts as
/// started after it, and the notifications that it gives rise to.
pub struct Outcome {
    pub state: MonitorState,
    pub started: bool,
    pub notifications: Seq<Notification>,
}

/// The keys of the live sessions that carry file data.
pub open spec fn file_keys(sessions: Map<u128, TransferSession>) -> Set<u128> {
    sessions.dom().filter(|k: u128| is_file_data(sessions[k].index))
}

/// The state of a monitor that has seen no update.
pub open spec fn initial_state(total_size: u64) -> MonitorState {
    MonitorState {
        sessions: Map::empty(),
        cumulative_bytes: 0,
        epoch_start: None,
        active_file_requests: 0,
        total_size,
    }
}

/// What holds of every state that a monitor reaches: the count of active
/// file requests is the number of live file-data sessions, and while any
/// session is live the epoch has been announced.
pub open spec fn consistent(s: MonitorState) -> bool {
    &&& s.sessions.dom().finite()
    &&& s.active_file_requests == file_keys(s.sessions).len()
    &&& s.sessions.dom().len() > 0 ==> s.epoch_start is Some
}

/// Mean speed in thousandths of a byte per second: zero when no time has
/// passed, and never more than [`MAX_SPEED`].
pub open spec fn speed_of(bytes: u64, elapsed_nanos: u64) -> u64 {
    if elapsed_nanos == 0 {
        0
    } else {
        let exact = (bytes as int * 1000 * NANOS_PER_SECOND as int) / (elapsed_nanos as int);
        if exact > MAX_SPEED as int {
            MAX_SPEED
        } else {
            exact as u64
        }
    }
}

/// Time that has passed since `start`, or zero if the clock went back.
pub open spec fn elapsed_since(start: u64, now: u64) -> u64 {
    if now >= start {
        (now - start) as u64
    } else {
        0
    }
}

/// The sum of two byte counts, held at the largest value that fits.
pub open spec fn saturating_sum(a: u64, b: u64) -> u64 {
    if a + b > u64::MAX {
        u64::MAX
    } else {
        (a + b) as u64
    }
}

/// Whether an update of a request that was not started before opens a new
/// epoch: it starts a file-data session while no other is live.
pub open spec fn opens_epoch(
    s: MonitorState,
    started: bool,
    key: u128,
    update: RequestUpdate,
) -> bool {
    &&& update matches RequestUpdate::Started { index }
    &&& !started
    &&& !s.sessions.contains_key(key)
    &&& is_file_data(index)
    &&& s.active_file_requests == 0
}

/// A request reports that a transfer has started.
///
/// A request that counts as started, or whose session is live, is left as it
/// is. Otherwise its session is recorded. A file-data session that finds no
/// other live opens a new epoch: the byte count goes back to zero and the
/// epoch is announced anew. An epoch that has not been announced is announced
/// now.
pub open spec fn on_started(
    s: MonitorState,
    started: bool,
    key: u128,
    index: u64,
    now: u64,
) -> Outcome {
    if started || s.sessions.contains_key(key) {
        Outcome { state: s, started: true, notifications: Seq::empty() }
    } else {
        let file = is_file_data(index);
        let reset = file && s.active_file_requests == 0;
        let announce = reset || s.epoch_start is None;
        let session = TransferSession {
            start_time: now,
            total_size: s.total_size,
            last_offset: 0,
            index,
        };
        Outcome {
            state: MonitorState {
                sessions: s.sessions.insert(key, session),
                cumulative_bytes: if reset {
                    0
                } else {
                    s.cumulative_bytes
                },
                epoch_start: if announce {
                    Some(now)
                } else {
                    s.epoch_start
                },
                active_file_requests: if file {
                    s.active_file_requests + 1
                } else {
                    s.active_file_requests
                },
                total_size: s.total_size,
            },
            started: true,
            notifications: if announce {
                seq![Notification::TransferStarted]
            } else {
                Seq::empty()
            },
        }
    }
}

/// A request reports the offset that it has reached.
///
/// The first update of a request announces an epoch that has not been
/// announced. A live file-data session then adds what it has moved since its
/// last report to the byte count, and the progress of the epoch is reported.
pub open spec fn on_progress(
    s: MonitorState,
    started: bool,
    key: u128,
    end_offset: u64,
    now: u64,
) -> Outcome {
    let announce = !started && s.epoch_start is None;
    let epoch_start = if announce {
        Some(now)
    } else {
        s.epoch_start
    };
    let first = if announce {
        seq![Notification::TransferStarted]
    } else {
        Seq::empty()
    };
    if s.sessions.contains_key(key) && is_file_data(s.sessions[key].index) {
        let session = s.sessions[key];
        let delta = if end_offset >= session.last_offset {
            (end_offset - session.last_offset) as u64
        } else {
            0
        };
        let bytes = saturating_sum(s.cumulative_bytes, delta);
        let moved = TransferSession { last_offset: end_offset, ..session };
        Outcome {
            state: MonitorState {
                sessions: s.sessions.insert(key, moved),
                cumulative_bytes: bytes,
                epoch_start,
                ..s
            },
            started: true,
            notifications: match epoch_start {
                Some(start) => first.push(
                    Notification::TransferProgress {
                        bytes,
                        total: s.total_size,
                        speed: speed_of(bytes, elapsed_since(start, now)),
                    },
                ),
                None => first,
            },
        }
    } else {
        Outcome { state: MonitorState { epoch_start, ..s }, started: true, notifications: first }
    }
}

/// A request has ended, with success or without.
///
/// Its session is forgotten. If it carried file data, there is one active
/// file request less, and if none is left the end of the transfer is
/// reported. A request without a session changes nothing.
pub open spec fn on_terminal(s: MonitorState, started: bool, key: u128) -> Outcome {
    if s.sessions.contains_key(key) {
        let file = is_file_data(s.sessions[key].index);
        let active: nat = if file && s.active_file_requests > 0 {
            (s.active_file_requests - 1) as nat
        } else {
            s.active_file_requests
        };
        Outcome {
            state: MonitorState {
                sessions: s.sessions.remove(key),
                active_file_requests: active,
                ..s
            },
            started,
            notifications: if file && active == 0 {
                seq![Notification::TransferCompleted]
            } else {
                Seq::empty()
            },
        }
    } else {
        Outcome { state: s, started, notifications: Seq::empty() }
    }
}

/// What one update of the request with this key does to a monitor.
pub open spec fn apply_update(
    s: MonitorState,
    started: bool,
    key: u128,
    update: RequestUpdate,
    now: u64,
) -> Outcome {
    match update {
        RequestUpdate::Started { index } => on_started(s, started, key, index, now),
        RequestUpdate::Progress { end_offset } => on_progress(s, started, key, end_offset, now),
        RequestUpdate::Completed => on_terminal(s, started, key),
        RequestUpdate::Aborted => on_terminal(s, started, key),
    }
}

/// The live file-data sessions after a session is recorded or replaced.
proof fn lemma_file_keys_insert(
    sessions: Map<u128, TransferSession>,
    key: u128,
    session: TransferSession,
)
    requires
        sessions.dom().finite(),
    ensures
        file_keys(sessions).finite(),
        file_keys(sessions).len() <= sessions.dom().len(),
        is_file_data(session.index) ==> file_keys(sessions.insert(key, session)) == file_keys(
            sessions,
        ).insert(key),
        !is_file_data(session.index) ==> file_keys(sessions.insert(key, session)) == file_keys(
            sessions,
        ).remove(key),
{
    sessions.dom().lemma_len_filter(|k: u128| is_file_data(sessions[k].index));
    let after = sessions.insert(key, session);
    if is_file_data(session.index) {
        assert(file_keys(after) =~= file_keys(sessions).insert(key));
    } else {
        assert(file_keys(after) =~= file_keys(sessions).remove(key));
    }
}

/// The live file-data sessions after a session is forgotten.
proof fn lemma_file_keys_remove(sessions: Map<u128, TransferSession>, key: u128)
    requires
        sessions.dom().finite(),
    ensures
        file_keys(sessions).finite(),
        file_keys(sessions).len() <= sessions.dom().len(),
        file_keys(sessions.remove(key)) == file_keys(sessions).remove(key),
{
    sessions.dom().lemma_len_filter(|k: u128| is_file_data(sessions[k].index));
    assert(file_keys(sessions.remove(key)) =~= file_keys(sessions).remove(key));
}

/// The state of a monitor that has seen no update is consistent.
pub proof fn lemma_initial_state_consistent(total_size: u64)
    ensures
        consistent(initial_state(total_size)),
{
    assert(file_keys(initial_state(total_size).sessions) =~= Set::<u128>::empty());
}

/// Every update leaves a consistent state consistent.
pub proof fn lemma_update_keeps_consistent(
    s: MonitorState,
    started: bool,
    key: u128,
    update: RequestUpdate,
    now: u64,
)
    requires
        consistent(s),
    ensures
        consistent(apply_update(s, started, key, update, now).state),
{
    match update {
        RequestUpdate::Started { index } => {
            if !(started || s.sessions.contains_key(key)) {
                let session = TransferSession {
                    start_time: now,
                    total_size: s.total_size,
                    last_offset: 0,
                    index,
                };
                lemma_file_keys_insert(s.sessions, key, session);
                assert(!file_keys(s.sessions).contains(key));
            }
        },
        RequestUpdate::Progress { end_offset } => {
            if s.sessions.contains_key(key) && is_file_data(s.sessions[key].index) {
                let moved = TransferSession { last_offset: end_offset, ..s.sessions[key] };
                lemma_file_keys_insert(s.sessions, key, moved);
                assert(file_keys(s.sessions).contains(key));
                assert(file_keys(s.sessions).insert(key) =~= file_keys(s.sessions));
                assert(s.sessions.insert(key, moved).dom() =~= s.sessions.dom());
            }
        },
        RequestUpdate::Completed | RequestUpdate::Aborted => {
            if s.sessions.contains_key(key) {
                lemma_file_keys_remove(s.sessions, key);
                if is_file_data(s.sessions[key].index) {
                    assert(file_keys(s.sessions).contains(key));
                } else {
                    assert(!file_keys(s.sessions).contains(key));
                    assert(file_keys(s.sessions).remove(key) =~= file_keys(s.sessions));
                }
            }
        },
    }
}

/// Computes the key under which the session of a request is kept.
pub fn session_key_of(connection_id: u64, request_id: u64) -> (key: u128)
    ensures
        key == session_key(connection_id, request_id),
{
    (connection_id as u128) * 0x1_0000_0000_0000_0000u128 + (request_id as u128)
}

/// Computes the mean speed of a transfer in thousandths of a byte per second.
pub fn transfer_speed(bytes: u64, elapsed_nanos: u64) -> (speed: u64)
    ensures
        speed == speed_of(bytes, elapsed_nanos),
{
    if elapsed_nanos == 0 {
        0
    } else {
        let scale: u128 = 1000u128 * (NANOS_PER_SECOND as u128);
        assert(scale == 1_000_000_000_000);
        let exact: u128 = (bytes as u128) * scale / (elapsed_nanos as u128);
        if exact > MAX_SPEED as u128 {
            MAX_SPEED
        } else {
            exact as u64
        }
    }
}

/// The stream of updates of one request, as far as the monitor has to
/// remember it: which request it is, and whether it counts as started.
#[derive(Clone, Copy, Debug, PartialEq, Eq)]
pub struct RequestTracker {
    connection_id: u64,
    request_id: u64,
    started: bool,
}

impl RequestTracker {
    /// The connection that the request came in on.
    pub closed spec fn spec_connection_id(&self) -> u64 {
        self.connection_id
    }

    /// The id of the request on its connection.
    pub closed spec fn spec_request_id(&self) -> u64 {
        self.request_id
    }

    /// Whether an update of this request has been seen that made it count as
    /// started.
    pub closed spec fn spec_started(&self) -> bool {
        self.started
    }

    /// The key under which the monitor keeps the session of this request.
    pub open spec fn key(&self) -> u128 {
        session_key(self.spec_connection_id(), self.spec_request_id())
    }

    /// A tracker for a request of which no update has been seen.
    pub fn new(connection_id: u64, request_id: u64) -> (tracker: Self)
        ensures
            tracker.spec_connection_id() == connection_id,
            tracker.spec_request_id() == request_id,
            !tracker.spec_started(),
    {
        RequestTracker { connection_id, request_id, started: false }
    }

    #[verifier::when_used_as_spec(spec_connection_id)]
    pub fn connection_id(&self) -> (id: u64)
        ensures
            id == self.spec_connection_id(),
    {
        self.connection_id
    }

    #[verifier::when_used_as_spec(spec_request_id)]
    pub fn request_id(&self) -> (id: u64)
        ensures
            id == self.spec_request_id(),
    {
        self.request_id
    }

    #[verifier::when_used_as_spec(spec_started)]
    pub fn started(&self) -> (started: bool)
        ensures
            started == self.spec_started(),
    {
        self.started
    }
}

/// The progress aggregate of one sharing session and its live sessions.
///
/// All requests share the one aggregate, so the byte count and the speed
/// are those of one peer at a time: two peers that fetch at once are counted
/// as one transfer.
pub struct TransferMonitor {
    sessions: HashMap<u128, TransferSession>,
    cumulative_bytes: u64,
    epoch_start: Option<u64>,
    active_file_requests: u64,
    total_size: u64,
}

impl View for TransferMonitor {
    type V = MonitorState;

    closed spec fn view(&self) -> MonitorState {
        MonitorState {
            sessions: self.sessions@,
            cumulative_bytes: self.cumulative_bytes,
            epoch_start: self.epoch_start,
            active_file_requests: self.active_file_requests as nat,
            total_size: self.total_size,
        }
    }
}

impl TransferMonitor {
    /// The invariant of a monitor: its state is consistent.
    pub open spec fn wf(&self) -> bool {
        consistent(self@)
    }

    /// A monitor for a transfer that is expected to move `total_size` bytes.
    pub fn new(total_size: u64) -> (monitor: Self)
        ensures
            monitor@ == initial_state(total_size),
            monitor.wf(),
    {
        let monitor = TransferMonitor {
            sessions: HashMap::new(),
            cumulative_bytes: 0,
            epoch_start: None,
            active_file_requests: 0,
            total_size,
        };
        proof {
            lemma_initial_state_consistent(total_size);
        }
        monitor
    }

    /// Bytes of file data moved in the current epoch.
    pub fn cumulative_bytes(&self) -> (bytes: u64)
        ensures
            bytes == self@.cumulative_bytes,
    {
        self.cumulative_bytes
    }

    /// Number of live requests for file data.
    pub fn active_file_requests(&self) -> (count: u64)
        ensures
            count == self@.active_file_requests,
    {
        self.active_file_requests
    }

    /// When the current epoch was announced, if it was.
    pub fn epoch_start(&self) -> (start: Option<u64>)
        ensures
            start == self@.epoch_start,
    {
        self.epoch_start
    }

    /// Number of bytes that a whole transfer is expected to move.
    pub fn total_size(&self) -> (total: u64)
        ensures
            total == self@.total_size,
    {
        self.total_size
    }

    /// The live session of a request, if it has one.
    pub fn session(&self, connection_id: u64, request_id: u64) -> (session: Option<
        TransferSession,
    >)
        ensures
            session == if self@.sessions.contains_key(session_key(connection_id, request_id)) {
                Some(self@.sessions[session_key(connection_id, request_id)])
            } else {
                None
            },
    {
        broadcast use vstd::std_specs::hash::group_hash_axioms;

        let key = session_key_of(connection_id, request_id);
        match self.sessions.get(&key) {
            Some(session) => Some(*session),
            None => None,
        }
    }

    /// Takes one update of a request and says what to tell the user.
    ///
    /// `now` is the time of the update in nanoseconds of a clock that does
    /// not go back. The monitor and the tracker change as [`apply_update`]
    /// says, and the notifications are those that it lists, in that order.
    pub fn handle(
        &mut self,
        tracker: &mut RequestTracker,
        update: RequestUpdate,
        now: u64,
    ) -> (notifications: Vec<Notification>)
        requires
            old(self).wf(),
        ensures
            final(self).wf(),
            final(self)@ == apply_update(
                old(self)@,
                old(tracker).spec_started(),
                old(tracker).key(),
                update,
                now,
            ).state,
            final(tracker).spec_started() == apply_update(
                old(self)@,
                old(tracker).spec_started(),
                old(tracker).key(),
                update,
                now,
            ).started,
            final(tracker).spec_connection_id() == old(tracker).spec_connection_id(),
            final(tracker).spec_request_id() == old(tracker).spec_request_id(),
            notifications@ == apply_update(
                old(self)@,
                old(tracker).spec_started(),
                old(tracker).key(),
                update,
                now,
            ).notifications,
    {
        proof {
            lemma_update_keeps_consistent(
                self@,
                tracker.spec_started(),
                tracker.key(),
                update,
                now,
            );
        }
        let key = session_key_of(tracker.connection_id, tracker.request_id);
        match update {
            RequestUpdate::Started { index } => self.started(tracker, key, index, now),
            RequestUpdate::Progress { end_offset } => self.progress(tracker, key, end_offset, now),
            RequestUpdate::Completed => self.terminal(key),
            RequestUpdate::Aborted => self.terminal(key),
        }
    }

    fn started(&mut self, tracker: &mut RequestTracker, key: u128, index: u64, now: u64) -> (
        notifications: Vec<Notification>)
        requires
            old(self).wf(),
            key == old(tracker).key(),
        ensures
            final(self)@ == on_started(
                old(self)@,
                old(tracker).spec_started(),
                key,
                index,
                now,
            ).state,
            final(tracker).spec_started(),
            final(tracker).spec_connection_id() == old(tracker).spec_connection_id(),
            final(tracker).spec_request_id() == old(tracker).spec_request_id(),
            notifications@ == on_started(
                old(self)@,
                old(tracker).spec_started(),
                key,
                index,
                now,
            ).notifications,
    {
        broadcast use vstd::std_specs::hash::group_hash_axioms;

        let mut notifications: Vec<Notification> = Vec::new();
        let was_started = tracker.started;
        tracker.started = true;
        if was_started || self.sessions.contains_key(&key) {
            return notifications;
        }
        let file = index >= FIRST_PAYLOAD_INDEX;
        let session = TransferSession {
            start_time: now,
            total_size: self.total_size,
            last_offset: 0,
            index,
        };
        proof {
            lemma_file_keys_insert(self.sessions@, key, session);
            assert(!file_keys(self.sessions@).contains(key));
        }
        self.sessions.insert(key, session);
        if file {
            if self.active_file_requests == 0 {
                self.cumulative_bytes = 0;
                self.epoch_start = None;
            }
            proof {
                let after = self.sessions@;
                after.dom().lemma_len_filter(|k: u128| is_file_data(after[k].index));
                assert(after.dom().len() == vstd::std_specs::hash::spec_hash_map_len(
                    &self.sessions,
                ));
            }
            self.active_file_requests += 1;
        }
        if self.epoch_start.is_none() {
            self.epoch_start = Some(now);
            notifications.push(Notification::TransferStarted);
        }
        notifications
    }

    fn progress(
        &mut self,
        tracker: &mut RequestTracker,
        key: u128,
        end_offset: u64,
        now: u64,
    ) -> (notifications: Vec<Notification>)
        requires
            old(self).wf(),
            key == old(tracker).key(),
        ensures
            final(self)@ == on_progress(
                old(self)@,
                old(tracker).spec_started(),
                key,
                end_offset,
                now,
            ).state,
            final(tracker).spec_started(),
            final(tracker).spec_connection_id() == old(tracker).spec_connection_id(),
            final(tracker).spec_request_id() == old(tracker).spec_request_id(),
            notifications@ == on_progress(
                old(self)@,
                old(tracker).spec_started(),
                key,
                end_offset,
                now,
            ).notifications,
    {
        broadcast use vstd::std_specs::hash::group_hash_axioms;

        let mut notifications: Vec<Notification> = Vec::new();
        if !tracker.started {
            tracker.started = true;
            if self.epoch_start.is_none() {
                self.epoch_start = Some(now);
                notifications.push(Notification::TransferStarted);
            }
        }
        let found = match self.sessions.get(&key) {
            Some(session) => Some(*session),
            None => None,
        };
        if let Some(session) = found {
            if session.index >= FIRST_PAYLOAD_INDEX {
                let delta = if end_offset >= session.last_offset {
                    end_offset - session.last_offset
                } else {
                    0
                };
                let bytes = if delta > u64::MAX - self.cumulative_bytes {
                    u64::MAX
                } else {
                    self.cumulative_bytes + delta
                };
                let moved = TransferSession {
                    start_time: session.start_time,
                    total_size: session.total_size,
                    last_offset: end_offset,
                    index: session.index,
                };
                self.sessions.insert(key, moved);
                self.cumulative_bytes = bytes;
                if let Some(start) = self.epoch_start {
                    let elapsed = if now >= start {
                        now - start
                    } else {
                        0
                    };
                    notifications.push(
                        Notification::TransferProgress {
                            bytes,
                            total: self.total_size,
                            speed: transfer_speed(bytes, elapsed),
                        },
                    );
                }
            }
        }
        notifications
    }

    fn terminal(&mut self, key: u128) -> (notifications: Vec<Notification>)
        requires
            old(self).wf(),
        ensures
            forall|started: bool|
                final(self)@ == (#[trigger] on_terminal(old(self)@, started, key)).state,
            forall|started: bool|
                notifications@ == (#[trigger] on_terminal(old(self)@, started, key)).notifications,
    {
        broadcast use vstd::std_specs::hash::group_hash_axioms;

        let mut notifications: Vec<Notification> = Vec::new();
        if let Some(session) = self.sessions.remove(&key) {
            let file = session.index >= FIRST_PAYLOAD_INDEX;
            if file && self.active_file_requests > 0 {
                self.active_file_requests -= 1;
            }
            if file && self.active_file_requests == 0 {
                notifications.push(Notification::TransferCompleted);
            }
        } else {
            assert(self.sessions@ =~= old(self).sessions@);
        }
        notifications
    }
}

} // verus!
