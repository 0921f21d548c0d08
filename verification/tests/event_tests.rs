use rustyhook::event::keys;
use rustyhook::event::{Event, EventType};
use rustyhook::event_time::EventTime;
use std::collections::HashMap;

#[test]
fn test_new_event() {
    let event = Event::new("test-handler", EventType::Filesystem);

    assert!(!event.id.is_empty());
    assert_eq!(event.source_handler, "test-handler");
    assert_eq!(event.event_type, EventType::Filesystem);
    assert!(event.data.is_empty());
}

#[test]
fn test_event_with_data() {
    let event = Event::new("test-handler", EventType::Webhook)
        .with_data("key1", "value1")
        .with_data("key2", "value2");

    assert_eq!(event.data.len(), 2);
    assert_eq!(event.get("key1"), Some(&"value1".to_string()));
    assert_eq!(event.get("key2"), Some(&"value2".to_string()));
}

#[test]
fn test_event_with_data_replaces_value() {
    let event = Event::new("h", EventType::Webhook)
        .with_data("key", "old")
        .with_data("other", "x")
        .with_data("key", "new");
    assert_eq!(event.data.len(), 2);
    assert_eq!(event.get("key"), Some(&"new".to_string()));
    assert_eq!(event.get("other"), Some(&"x".to_string()));
    assert_eq!(event.get("missing"), None);
}

#[test]
fn test_from_filesystem() {
    let event = Event::from_filesystem("fs-handler", "/tmp/test.txt", "create");

    assert_eq!(event.source_handler, "fs-handler");
    assert_eq!(event.event_type, EventType::Filesystem);
    assert_eq!(
        event.get(keys::FILE_PATH),
        Some(&"/tmp/test.txt".to_string())
    );
    assert_eq!(
        event.get(keys::FILE_EVENT_KIND),
        Some(&"create".to_string())
    );
}

#[test]
fn test_from_webhook() {
    let event = Event::from_webhook("webhook-handler", "POST", "/api/hook", r#"{"data": 1}"#);

    assert_eq!(event.source_handler, "webhook-handler");
    assert_eq!(event.event_type, EventType::Webhook);
    assert_eq!(event.get(keys::HTTP_METHOD), Some(&"POST".to_string()));
    assert_eq!(event.get(keys::HTTP_URI), Some(&"/api/hook".to_string()));
    assert_eq!(
        event.get(keys::HTTP_BODY),
        Some(&r#"{"data": 1}"#.to_string())
    );
}

#[test]
fn test_from_webhook_with_headers() {
    let event = Event::from_webhook_with_headers(
        "webhook-handler",
        "POST",
        "/api/hook",
        "body",
        r#"{"Content-Type": "application/json"}"#,
    );

    assert_eq!(
        event.get(keys::HTTP_HEADERS),
        Some(&r#"{"Content-Type": "application/json"}"#.to_string())
    );
}

#[test]
fn test_from_sqs() {
    let event = Event::from_sqs(
        "sqs-handler",
        r#"{"message": "hello"}"#,
        "msg-123",
        "receipt-456",
    );

    assert_eq!(event.source_handler, "sqs-handler");
    assert_eq!(event.event_type, EventType::Sqs);
    assert_eq!(
        event.get(keys::SQS_MESSAGE_BODY),
        Some(&r#"{"message": "hello"}"#.to_string())
    );
    assert_eq!(
        event.get(keys::SQS_MESSAGE_ID),
        Some(&"msg-123".to_string())
    );
    assert_eq!(
        event.get(keys::SQS_RECEIPT_HANDLE),
        Some(&"receipt-456".to_string())
    );
}

#[test]
fn test_from_cron() {
    let scheduled = EventTime::now();
    let event = Event::from_cron("cron-handler", "0 * * * * *", &scheduled);

    assert_eq!(event.source_handler, "cron-handler");
    assert_eq!(event.event_type, EventType::Cron);
    assert_eq!(
        event.get(keys::CRON_EXPRESSION),
        Some(&"0 * * * * *".to_string())
    );
    assert_eq!(
        event.get(keys::CRON_SCHEDULED_TIME),
        Some(&scheduled.to_rfc3339())
    );
}

#[test]
fn test_from_cron_fixed_time() {
    let scheduled = EventTime::from_unix(1431648000, 0).unwrap();
    let event = Event::from_cron("cron-handler", "0 0 * * * *", &scheduled);
    assert_eq!(
        event.get(keys::CRON_SCHEDULED_TIME),
        Some(&"2015-05-15T00:00:00+00:00".to_string())
    );
}

#[test]
fn test_event_time_range() {
    let t = EventTime::from_unix(1431648000, 500).unwrap();
    assert_eq!(t.secs(), 1431648000);
    assert_eq!(t.nanos(), 500);
    assert!(EventTime::from_unix(i64::MAX, 0).is_none());
    assert!(EventTime::from_unix(0, 2_000_000_000).is_none());
}

#[test]
fn test_forwarded_event() {
    let original = Event::from_filesystem("fs-handler", "/tmp/test.txt", "modify");
    let forwarded = Event::forwarded(&original);

    // New ID but same source
    assert_ne!(forwarded.id, original.id);
    assert_eq!(forwarded.source_handler, original.source_handler);

    // Type changed to Forwarded
    assert_eq!(forwarded.event_type, EventType::Forwarded);

    // Data preserved
    assert_eq!(forwarded.data, original.data);
}

#[test]
fn test_event_type_display() {
    assert_eq!(EventType::Filesystem.to_string(), "filesystem");
    assert_eq!(EventType::Webhook.to_string(), "webhook");
    assert_eq!(EventType::Sqs.to_string(), "sqs");
    assert_eq!(EventType::Cron.to_string(), "cron");
    assert_eq!(EventType::Forwarded.to_string(), "forwarded");
}

#[test]
fn test_with_data_map() {
    let mut data = HashMap::new();
    data.insert("key1".to_string(), "value1".to_string());
    data.insert("key2".to_string(), "value2".to_string());

    let event = Event::new("handler", EventType::Webhook).with_data_map(data.into_iter().collect());

    assert_eq!(event.data.len(), 2);
    assert_eq!(event.get("key1"), Some(&"value1".to_string()));
}

#[test]
fn test_unique_event_ids() {
    let event1 = Event::new("handler", EventType::Filesystem);
    let event2 = Event::new("handler", EventType::Filesystem);

    assert_ne!(event1.id, event2.id);
    assert_eq!(event1.id.len(), 36);
}

#[test]
fn test_event_clone_keeps_everything() {
    let original = Event::from_webhook("h", "GET", "/p", "b").with_data("extra", "data");
    let copy = original.clone();
    assert_eq!(copy.id, original.id);
    assert_eq!(copy.source_handler, original.source_handler);
    assert_eq!(copy.event_type, original.event_type);
    assert_eq!(copy.timestamp, original.timestamp);
    assert_eq!(copy.data, original.data);
}

#[test]
fn test_data_equality_ignores_order() {
    let a = Event::new("h", EventType::Webhook).with_data("x", "1").with_data("y", "2");
    let b = Event::new("h", EventType::Webhook).with_data("y", "2").with_data("x", "1");
    let c = Event::new("h", EventType::Webhook).with_data("y", "2").with_data("x", "3");
    assert_eq!(a.data, b.data);
    assert_ne!(a.data, c.data);
}

#[test]
fn test_event_id_is_uuid_v4_text() {
    let event = Event::new("h", EventType::Cron);
    let chars: Vec<char> = event.id.chars().collect();
    assert_eq!(chars.len(), 36);
    for (i, c) in chars.iter().enumerate() {
        if i == 8 || i == 13 || i == 18 || i == 23 {
            assert_eq!(*c, '-');
        } else {
            assert!(c.is_ascii_digit() || ('a'..='f').contains(c));
        }
    }
    assert_eq!(chars[14], '4');
    assert!(matches!(chars[19], '8' | '9' | 'a' | 'b'));
}

#[test]
fn test_event_time_leap_second_only_at_59() {
    assert!(EventTime::from_unix(1431647999, 1_500_000_000).is_some());
    assert!(EventTime::from_unix(1431647998, 1_500_000_000).is_none());
}

#[test]
fn test_event_time_now_is_after_epoch_and_not_leap() {
    let t = EventTime::now();
    assert!(t.secs() >= 0);
    assert!(t.nanos() < 1_000_000_000);
}

#[test]
fn test_event_time_range_bounds() {
    assert!(EventTime::from_unix(8_210_266_876_799, 0).is_some());
    assert!(EventTime::from_unix(8_210_266_876_799, 1_999_999_999).is_some());
    assert!(EventTime::from_unix(8_210_266_876_800, 0).is_none());
    assert!(EventTime::from_unix(-8_334_601_228_800, 0).is_some());
    assert!(EventTime::from_unix(-8_334_601_228_801, 0).is_none());
    assert!(EventTime::from_unix(0, 999_999_999).is_some());
}

#[test]
fn test_event_timestamp_within_bounds() {
    let e = Event::from_webhook("h", "GET", "/", "");
    assert!(e.timestamp.secs() >= 0 && e.timestamp.secs() < 8_210_266_876_799);
    assert!(e.timestamp.nanos() < 1_000_000_000);
    let f = Event::forwarded(&e);
    assert!(f.timestamp.nanos() < 1_000_000_000);
}
