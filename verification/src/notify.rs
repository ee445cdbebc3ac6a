//! The form in which the notifications of a sharing session reach the
//! application: each under a fixed name, progress with a payload of three
//! numbers.

use crate::monitor::Notification;
use crate::text::{decimal, decimal_string};
use vstd::prelude::*;

verus! {

/// The name under which a notification reaches the application.
pub open spec fn event_name_of(notification: Notification) -> Seq<char> {
    match notification {
        Notification::TransferStarted => "transfer-started"@,
        Notification::TransferProgress { .. } => "transfer-progress"@,
        Notification::TransferCompleted => "transfer-completed"@,
    }
}

/// The payload of a progress event: the bytes moved, the expected total and
/// the speed, in decimal digits with a colon between each two.
pub open spec fn progress_payload_of(bytes: u64, total: u64, speed: u64) -> Seq<char> {
    decimal(bytes as nat) + seq![':'] + decimal(total as nat) + seq![':'] + decimal(speed as nat)
}

/// The payload with which a notification reaches the application, if it has
/// one.
pub open spec fn payload_of(notification: Notification) -> Option<Seq<char>> {
    match notification {
        Notification::TransferProgress { bytes, total, speed } => Some(
            progress_payload_of(bytes, total, speed),
        ),
        _ => None,
    }
}

/// The name under which a notification reaches the application.
pub fn event_name(notification: &Notification) -> (name: &'static str)
    ensures
        name@ == event_name_of(*notification),
{
    match notification {
        Notification::TransferStarted => "transfer-started",
        Notification::TransferProgress { .. } => "transfer-progress",
        Notification::TransferCompleted => "transfer-completed",
    }
}

/// Writes the payload of a progress event.
pub fn progress_payload(bytes: u64, total: u64, speed: u64) -> (payload: String)
    ensures
        payload@ == progress_payload_of(bytes, total, speed),
{
    proof {
        reveal_strlit(":");
    }
    let mut payload = decimal_string(bytes);
    payload.append(":");
    payload.append(decimal_string(total).as_str());
    payload.append(":");
    payload.append(decimal_string(speed).as_str());
    proof {
        assert(payload@ =~= progress_payload_of(bytes, total, speed));
    }
    payload
}

/// Writes the payload with which a notification reaches the application, if
/// it has one.
pub fn payload(notification: &Notification) -> (payload: Option<String>)
    ensures
        match payload {
            Some(text) => payload_of(*notification) == Some(text@),
            None => payload_of(*notification) is None,
        },
{
    match notification {
        Notification::TransferProgress { bytes, total, speed } => Some(
            progress_payload(*bytes, *total, *speed),
        ),
        _ => None,
    }
}

} // verus!
