use sendme::monitor::{
    session_key_of, transfer_speed, Notification, RequestTracker, RequestUpdate, TransferMonitor,
    TransferSession, FIRST_PAYLOAD_INDEX, MAX_SPEED,
};

const SECOND: u64 = 1_000_000_000;

fn count(notifications: &[Notification], wanted: Notification) -> usize {
    notifications.iter().filter(|n| **n == wanted).count()
}

#[test]
fn progress_counts_the_bytes_since_the_last_report() {
    let mut monitor = TransferMonitor::new(1000);
    let mut tracker = RequestTracker::new(1, 1);
    let started = monitor.handle(&mut tracker, RequestUpdate::Started { index: 2 }, 0);
    assert_eq!(started, vec![Notification::TransferStarted]);
    let first = monitor.handle(&mut tracker, RequestUpdate::Progress { end_offset: 100 }, SECOND);
    assert_eq!(
        first,
        vec![Notification::TransferProgress { bytes: 100, total: 1000, speed: 100_000 }]
    );
    assert_eq!(monitor.cumulative_bytes(), 100);
    let second =
        monitor.handle(&mut tracker, RequestUpdate::Progress { end_offset: 250 }, 2 * SECOND);
    assert_eq!(
        second,
        vec![Notification::TransferProgress { bytes: 250, total: 1000, speed: 125_000 }]
    );
    assert_eq!(monitor.cumulative_bytes(), 250);
}

#[test]
fn the_last_of_two_file_requests_reports_the_end() {
    let mut monitor = TransferMonitor::new(10);
    let mut a = RequestTracker::new(7, 1);
    let mut b = RequestTracker::new(7, 2);
    monitor.handle(&mut a, RequestUpdate::Started { index: 2 }, 1);
    monitor.handle(&mut b, RequestUpdate::Started { index: 3 }, 2);
    assert_eq!(monitor.active_file_requests(), 2);
    let after_a = monitor.handle(&mut a, RequestUpdate::Completed, 3);
    assert_eq!(after_a, vec![]);
    assert_eq!(monitor.active_file_requests(), 1);
    let after_b = monitor.handle(&mut b, RequestUpdate::Aborted, 4);
    assert_eq!(after_b, vec![Notification::TransferCompleted]);
    assert_eq!(monitor.active_file_requests(), 0);
}

#[test]
fn two_file_requests_and_a_manifest_request_make_one_epoch() {
    let mut monitor = TransferMonitor::new(500);
    let mut file_a = RequestTracker::new(1, 10);
    let mut file_b = RequestTracker::new(1, 11);
    let mut meta = RequestTracker::new(1, 12);
    let mut all: Vec<Notification> = Vec::new();
    all.extend(monitor.handle(&mut file_a, RequestUpdate::Started { index: 2 }, 1));
    all.extend(monitor.handle(&mut meta, RequestUpdate::Started { index: 0 }, 2));
    all.extend(monitor.handle(&mut file_b, RequestUpdate::Started { index: 3 }, 3));
    all.extend(monitor.handle(&mut file_a, RequestUpdate::Progress { end_offset: 200 }, 4));
    all.extend(monitor.handle(&mut meta, RequestUpdate::Progress { end_offset: 64 }, 5));
    all.extend(monitor.handle(&mut file_b, RequestUpdate::Progress { end_offset: 300 }, 6));
    all.extend(monitor.handle(&mut file_a, RequestUpdate::Completed, 7));
    assert_eq!(count(&all, Notification::TransferCompleted), 0);
    all.extend(monitor.handle(&mut file_b, RequestUpdate::Completed, 8));
    assert_eq!(count(&all, Notification::TransferStarted), 1);
    assert_eq!(count(&all, Notification::TransferCompleted), 1);
    assert_eq!(all.first(), Some(&Notification::TransferStarted));
    assert_eq!(all.last(), Some(&Notification::TransferCompleted));
    assert_eq!(monitor.cumulative_bytes(), 500);
    assert!(monitor.session(1, 12).is_some());
}

#[test]
fn a_manifest_request_that_ends_reports_no_end() {
    let mut monitor = TransferMonitor::new(500);
    let mut meta = RequestTracker::new(1, 1);
    let started = monitor.handle(&mut meta, RequestUpdate::Started { index: 0 }, 1);
    assert_eq!(started, vec![Notification::TransferStarted]);
    assert_eq!(monitor.active_file_requests(), 0);
    let ended = monitor.handle(&mut meta, RequestUpdate::Completed, 2);
    assert_eq!(ended, vec![]);
    let mut index = RequestTracker::new(1, 2);
    monitor.handle(&mut index, RequestUpdate::Started { index: 1 }, 3);
    assert_eq!(monitor.handle(&mut index, RequestUpdate::Aborted, 4), vec![]);
    assert!(monitor.session(1, 1).is_none());
    assert!(monitor.session(1, 2).is_none());
}

#[test]
fn progress_of_a_manifest_request_is_not_counted() {
    let mut monitor = TransferMonitor::new(500);
    let mut meta = RequestTracker::new(1, 1);
    monitor.handle(&mut meta, RequestUpdate::Started { index: 1 }, 1);
    let notes = monitor.handle(&mut meta, RequestUpdate::Progress { end_offset: 99 }, 2);
    assert_eq!(notes, vec![]);
    assert_eq!(monitor.cumulative_bytes(), 0);
    assert_eq!(
        monitor.session(1, 1),
        Some(TransferSession { start_time: 1, total_size: 500, last_offset: 0, index: 1 })
    );
}

#[test]
fn the_byte_count_never_falls_within_an_epoch() {
    let mut monitor = TransferMonitor::new(1_000);
    let mut a = RequestTracker::new(1, 1);
    let mut b = RequestTracker::new(1, 2);
    let updates = [
        (0, RequestUpdate::Started { index: 2 }),
        (0, RequestUpdate::Progress { end_offset: 50 }),
        (1, RequestUpdate::Started { index: 5 }),
        (1, RequestUpdate::Progress { end_offset: 10 }),
        (0, RequestUpdate::Progress { end_offset: 20 }),
        (0, RequestUpdate::Progress { end_offset: 80 }),
        (1, RequestUpdate::Completed),
        (0, RequestUpdate::Progress { end_offset: 90 }),
    ];
    let mut last = 0;
    let mut seen = Vec::new();
    for (i, (who, update)) in updates.iter().enumerate() {
        let tracker = if *who == 0 { &mut a } else { &mut b };
        monitor.handle(tracker, *update, i as u64);
        assert!(monitor.cumulative_bytes() >= last);
        last = monitor.cumulative_bytes();
        seen.push(last);
    }
    assert_eq!(seen, vec![0, 50, 50, 60, 60, 120, 120, 130]);
}

#[test]
fn an_offset_that_goes_back_adds_nothing_and_is_remembered() {
    let mut monitor = TransferMonitor::new(1_000);
    let mut a = RequestTracker::new(3, 4);
    monitor.handle(&mut a, RequestUpdate::Started { index: 2 }, 0);
    monitor.handle(&mut a, RequestUpdate::Progress { end_offset: 100 }, 1);
    let back = monitor.handle(&mut a, RequestUpdate::Progress { end_offset: 40 }, SECOND);
    assert_eq!(back, vec![Notification::TransferProgress { bytes: 100, total: 1_000, speed: 100_000 }]);
    assert_eq!(monitor.session(3, 4).map(|s| s.last_offset), Some(40));
    monitor.handle(&mut a, RequestUpdate::Progress { end_offset: 100 }, 2 * SECOND);
    assert_eq!(monitor.cumulative_bytes(), 160);
}

#[test]
fn a_new_epoch_starts_the_count_anew() {
    let mut monitor = TransferMonitor::new(300);
    let mut a = RequestTracker::new(1, 1);
    monitor.handle(&mut a, RequestUpdate::Started { index: 2 }, 10);
    monitor.handle(&mut a, RequestUpdate::Progress { end_offset: 300 }, 20);
    assert_eq!(monitor.handle(&mut a, RequestUpdate::Completed, 30), vec![Notification::TransferCompleted]);
    assert_eq!(monitor.cumulative_bytes(), 300);
    assert_eq!(monitor.epoch_start(), Some(10));
    let mut b = RequestTracker::new(2, 1);
    let again = monitor.handle(&mut b, RequestUpdate::Started { index: 2 }, 40);
    assert_eq!(again, vec![Notification::TransferStarted]);
    assert_eq!(monitor.cumulative_bytes(), 0);
    assert_eq!(monitor.epoch_start(), Some(40));
    assert_eq!(monitor.total_size(), 300);
}

#[test]
fn a_manifest_request_before_the_first_file_request_is_announced_too() {
    let mut monitor = TransferMonitor::new(300);
    let mut meta = RequestTracker::new(1, 1);
    let mut file = RequestTracker::new(1, 2);
    let first = monitor.handle(&mut meta, RequestUpdate::Started { index: 0 }, 1);
    let second = monitor.handle(&mut file, RequestUpdate::Started { index: 2 }, 2);
    assert_eq!(first, vec![Notification::TransferStarted]);
    assert_eq!(second, vec![Notification::TransferStarted]);
    assert_eq!(monitor.epoch_start(), Some(2));
}

#[test]
fn a_second_start_of_a_request_changes_nothing() {
    let mut monitor = TransferMonitor::new(300);
    let mut a = RequestTracker::new(1, 1);
    monitor.handle(&mut a, RequestUpdate::Started { index: 2 }, 1);
    monitor.handle(&mut a, RequestUpdate::Progress { end_offset: 30 }, 2);
    let again = monitor.handle(&mut a, RequestUpdate::Started { index: 4 }, 3);
    assert_eq!(again, vec![]);
    assert_eq!(monitor.active_file_requests(), 1);
    assert_eq!(
        monitor.session(1, 1),
        Some(TransferSession { start_time: 1, total_size: 300, last_offset: 30, index: 2 })
    );
    let mut twin = RequestTracker::new(1, 1);
    assert_eq!(monitor.handle(&mut twin, RequestUpdate::Started { index: 2 }, 4), vec![]);
    assert!(twin.started());
    assert_eq!(monitor.active_file_requests(), 1);
}

#[test]
fn a_start_after_the_end_of_the_same_request_is_passed_over() {
    let mut monitor = TransferMonitor::new(300);
    let mut a = RequestTracker::new(1, 1);
    monitor.handle(&mut a, RequestUpdate::Started { index: 2 }, 1);
    monitor.handle(&mut a, RequestUpdate::Completed, 2);
    assert_eq!(monitor.handle(&mut a, RequestUpdate::Started { index: 2 }, 3), vec![]);
    assert!(monitor.session(1, 1).is_none());
    assert_eq!(monitor.active_file_requests(), 0);
}

#[test]
fn progress_before_any_start_announces_the_transfer_once() {
    let mut monitor = TransferMonitor::new(300);
    let mut a = RequestTracker::new(1, 1);
    let mut b = RequestTracker::new(1, 2);
    assert!(!a.started());
    let first = monitor.handle(&mut a, RequestUpdate::Progress { end_offset: 5 }, 9);
    assert_eq!(first, vec![Notification::TransferStarted]);
    assert!(a.started());
    assert_eq!(monitor.epoch_start(), Some(9));
    assert_eq!(monitor.cumulative_bytes(), 0);
    assert_eq!(monitor.handle(&mut a, RequestUpdate::Progress { end_offset: 6 }, 10), vec![]);
    assert_eq!(monitor.handle(&mut b, RequestUpdate::Progress { end_offset: 7 }, 11), vec![]);
    assert_eq!(monitor.handle(&mut a, RequestUpdate::Started { index: 2 }, 12), vec![]);
    assert!(monitor.session(1, 1).is_none());
}

#[test]
fn the_end_of_a_request_without_a_session_changes_nothing() {
    let mut monitor = TransferMonitor::new(300);
    let mut a = RequestTracker::new(1, 1);
    let mut stray = RequestTracker::new(9, 9);
    monitor.handle(&mut a, RequestUpdate::Started { index: 2 }, 1);
    assert_eq!(monitor.handle(&mut stray, RequestUpdate::Completed, 2), vec![]);
    assert_eq!(monitor.handle(&mut stray, RequestUpdate::Aborted, 3), vec![]);
    assert!(!stray.started());
    assert_eq!(monitor.active_file_requests(), 1);
    assert_eq!(monitor.handle(&mut a, RequestUpdate::Completed, 4), vec![Notification::TransferCompleted]);
    assert_eq!(monitor.handle(&mut a, RequestUpdate::Completed, 5), vec![]);
    assert_eq!(monitor.active_file_requests(), 0);
}

#[test]
fn the_byte_count_stops_at_the_largest_value() {
    let mut monitor = TransferMonitor::new(0);
    let mut a = RequestTracker::new(1, 1);
    let mut b = RequestTracker::new(1, 2);
    monitor.handle(&mut a, RequestUpdate::Started { index: 2 }, 0);
    monitor.handle(&mut b, RequestUpdate::Started { index: 2 }, 0);
    monitor.handle(&mut a, RequestUpdate::Progress { end_offset: u64::MAX - 1 }, 1);
    monitor.handle(&mut b, RequestUpdate::Progress { end_offset: 5 }, 2);
    assert_eq!(monitor.cumulative_bytes(), u64::MAX);
}

#[test]
fn no_time_passed_means_no_speed() {
    let mut monitor = TransferMonitor::new(100);
    let mut a = RequestTracker::new(1, 1);
    monitor.handle(&mut a, RequestUpdate::Started { index: 2 }, 77);
    let now = monitor.handle(&mut a, RequestUpdate::Progress { end_offset: 10 }, 77);
    assert_eq!(now, vec![Notification::TransferProgress { bytes: 10, total: 100, speed: 0 }]);
    let earlier = monitor.handle(&mut a, RequestUpdate::Progress { end_offset: 20 }, 70);
    assert_eq!(earlier, vec![Notification::TransferProgress { bytes: 20, total: 100, speed: 0 }]);
}

#[test]
fn speed_is_bytes_by_seconds_in_thousandths() {
    assert_eq!(transfer_speed(1000, 3 * SECOND), 333_333);
    assert_eq!(transfer_speed(1, SECOND), 1_000);
    assert_eq!(transfer_speed(1, 1), 1_000_000_000_000);
    assert_eq!(transfer_speed(0, 5), 0);
    assert_eq!(transfer_speed(5, 0), 0);
    assert_eq!(transfer_speed(u64::MAX, 1), MAX_SPEED);
    assert_eq!(transfer_speed(9_223_372, 1), 9_223_372_000_000_000_000);
    assert_eq!(transfer_speed(9_223_373, 1), MAX_SPEED);
}

#[test]
fn a_new_monitor_is_empty() {
    let monitor = TransferMonitor::new(42);
    assert_eq!(monitor.cumulative_bytes(), 0);
    assert_eq!(monitor.active_file_requests(), 0);
    assert_eq!(monitor.epoch_start(), None);
    assert_eq!(monitor.total_size(), 42);
    assert_eq!(monitor.session(0, 0), None);
}

#[test]
fn trackers_remember_their_request() {
    let tracker = RequestTracker::new(11, 22);
    assert_eq!(tracker.connection_id(), 11);
    assert_eq!(tracker.request_id(), 22);
    assert!(!tracker.started());
}

#[test]
fn session_keys_tell_requests_apart() {
    assert_eq!(session_key_of(0, 0), 0);
    assert_eq!(session_key_of(0, 1), 1);
    assert_eq!(session_key_of(1, 0), 1u128 << 64);
    assert_eq!(session_key_of(u64::MAX, u64::MAX), u128::MAX);
    assert_ne!(session_key_of(1, 2), session_key_of(2, 1));
}

#[test]
fn file_data_begins_at_the_third_blob() {
    assert_eq!(FIRST_PAYLOAD_INDEX, 2);
    let mut monitor = TransferMonitor::new(1);
    let mut one = RequestTracker::new(1, 1);
    let mut two = RequestTracker::new(1, 2);
    monitor.handle(&mut one, RequestUpdate::Started { index: 1 }, 0);
    assert_eq!(monitor.active_file_requests(), 0);
    monitor.handle(&mut two, RequestUpdate::Started { index: 2 }, 0);
    assert_eq!(monitor.active_file_requests(), 1);
}
