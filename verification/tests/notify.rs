use sendme::monitor::Notification;
use sendme::notify::{event_name, payload, progress_payload};

#[test]
fn every_notification_has_its_name() {
    assert_eq!(event_name(&Notification::TransferStarted), "transfer-started");
    assert_eq!(
        event_name(&Notification::TransferProgress { bytes: 1, total: 2, speed: 3 }),
        "transfer-progress"
    );
    assert_eq!(event_name(&Notification::TransferCompleted), "transfer-completed");
}

#[test]
fn the_payload_of_progress_is_three_numbers() {
    assert_eq!(progress_payload(100, 1000, 333_333), "100:1000:333333");
    assert_eq!(progress_payload(0, 0, 0), "0:0:0");
    assert_eq!(
        progress_payload(u64::MAX, 10, 9_223_372_036_854_775_807),
        "18446744073709551615:10:9223372036854775807"
    );
}

#[test]
fn only_progress_has_a_payload() {
    assert_eq!(payload(&Notification::TransferStarted), None);
    assert_eq!(payload(&Notification::TransferCompleted), None);
    assert_eq!(
        payload(&Notification::TransferProgress { bytes: 250, total: 1000, speed: 125_000 }),
        Some("250:1000:125000".to_string())
    );
}
