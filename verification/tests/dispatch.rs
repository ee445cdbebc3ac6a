use sendme::dispatch::{next_wait, tracker_for, ProviderEvent, Wait};

#[test]
fn the_loop_ends_only_when_nothing_is_left_to_wait_for() {
    assert_eq!(next_wait(true, true), Wait::EventOrRequestEnd);
    assert_eq!(next_wait(true, false), Wait::Event);
    assert_eq!(next_wait(false, true), Wait::RequestEnd);
    assert_eq!(next_wait(false, false), Wait::Nothing);
}

#[test]
fn only_a_request_is_tracked() {
    assert_eq!(tracker_for(&ProviderEvent::ClientConnected), None);
    assert_eq!(tracker_for(&ProviderEvent::ConnectionClosed), None);
    assert_eq!(tracker_for(&ProviderEvent::Other), None);
    let tracker = tracker_for(&ProviderEvent::RequestReceived { connection_id: 4, request_id: 9 })
        .expect("a request is tracked");
    assert_eq!(tracker.connection_id(), 4);
    assert_eq!(tracker.request_id(), 9);
    assert!(!tracker.started());
}
