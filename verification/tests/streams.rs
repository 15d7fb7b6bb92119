use rust_datastar_template::error::Error;
use rust_datastar_template::repo::streams::{
    first_sequence_to_fetch, latest_messages, message_filter_subject, message_from_parts,
    step_after_last_message, FetchedMessage, LastMessageLookup, LatestMessagesStep,
};

#[test]
fn fetch_window_start() {
    assert_eq!(first_sequence_to_fetch(0), 1);
    assert_eq!(first_sequence_to_fetch(5), 1);
    assert_eq!(first_sequence_to_fetch(10), 1);
    assert_eq!(first_sequence_to_fetch(11), 1);
    assert_eq!(first_sequence_to_fetch(12), 2);
    assert_eq!(first_sequence_to_fetch(100), 90);
    assert_eq!(first_sequence_to_fetch(u64::MAX), u64::MAX - 10);
}

#[test]
fn filter_subject() {
    assert_eq!(message_filter_subject(), "message.>");
}

#[test]
fn message_deadline_is_ten_seconds_later() {
    let m = message_from_parts(b"hello".to_vec(), Some(0)).unwrap();
    assert_eq!(m.text, "hello");
    assert_eq!(m.deadline, "1970-01-01T00:00:10.000000Z");
    let m = message_from_parts("héllo".as_bytes().to_vec(), Some(1_700_000_000_123_456_789)).unwrap();
    assert_eq!(m.text, "héllo");
    assert_eq!(m.deadline, "2023-11-14T22:13:30.123456Z");
}

#[test]
fn unreadable_messages_are_dropped() {
    assert!(message_from_parts(vec![0xff, 0xfe], Some(0)).is_none());
    assert!(message_from_parts(b"hi".to_vec(), None).is_none());
}

#[test]
fn deadline_saturates_at_the_last_instant() {
    let last: i128 = 253_402_300_799_999_999_999;
    let m = message_from_parts(b"late".to_vec(), Some(last - 5_000_000_000)).unwrap();
    assert_eq!(m.text, "late");
    assert_eq!(m.deadline, "9999-12-31T23:59:59.999999Z");
    let m = message_from_parts(b"hi".to_vec(), Some(i128::MAX)).unwrap();
    assert_eq!(m.deadline, "9999-12-31T23:59:59.999999Z");
    let m = message_from_parts(b"edge".to_vec(), Some(last - 10_000_000_000)).unwrap();
    assert_eq!(m.deadline, "9999-12-31T23:59:59.999999Z");
    let m = message_from_parts(b"before".to_vec(), Some(last - 10_000_000_001)).unwrap();
    assert_eq!(m.deadline, "9999-12-31T23:59:59.999999Z");
}

#[test]
fn latest_messages_keep_order() {
    let entries = vec![
        Some(FetchedMessage { payload: b"one".to_vec(), published_unix_nanos: Some(0) }),
        None,
        Some(FetchedMessage { payload: vec![0xc3], published_unix_nanos: Some(0) }),
        Some(FetchedMessage { payload: b"two".to_vec(), published_unix_nanos: None }),
        Some(FetchedMessage { payload: b"three".to_vec(), published_unix_nanos: Some(1_000_000_000) }),
    ];
    let kept = latest_messages(&entries);
    assert_eq!(kept.len(), 2);
    assert_eq!(kept[0].text, "one");
    assert_eq!(kept[1].text, "three");
    assert_eq!(kept[1].deadline, "1970-01-01T00:00:11.000000Z");
    assert!(latest_messages(&vec![]).is_empty());
}

#[test]
fn steps_after_last_message() {
    assert!(matches!(step_after_last_message(LastMessageLookup::Found(30)), LatestMessagesStep::FetchFrom(20)));
    match step_after_last_message(LastMessageLookup::NoMessageFound) {
        LatestMessagesStep::Finished(Ok(v)) => assert!(v.is_empty()),
        _ => panic!("expected no messages"),
    }
    match step_after_last_message(LastMessageLookup::Failed("down".into())) {
        LatestMessagesStep::Finished(Err(Error::Nats(m))) => assert_eq!(m, "down"),
        _ => panic!("expected a bus error"),
    }
}

#[test]
fn stream_error_text() {
    assert_eq!(Error::Utf8("bad byte".to_string()).to_string(), "Utf8(\"bad byte\")");
    assert_eq!(Error::Nats("say \"hi\"\n".to_string()).to_string(), "Nats(\"say \\\"hi\\\"\\n\")");
    let e = Error::Nats("timed out".to_string());
    assert_eq!(e.to_string(), format!("{e:?}"));
}

#[test]
fn deadlines_before_year_zero_are_dropped() {
    let first: i128 = -62_167_219_200_000_000_000;
    let m = message_from_parts(b"old".to_vec(), Some(first - 10_000_000_000)).unwrap();
    assert_eq!(m.deadline, "0000-01-01T00:00:00.000000Z");
    assert!(message_from_parts(b"old".to_vec(), Some(first - 10_000_000_001)).is_none());
    assert!(message_from_parts(b"old".to_vec(), Some(i128::MIN)).is_none());
}
