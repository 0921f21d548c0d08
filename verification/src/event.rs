//! Event types for inter-handler communication.
//!
//! Handlers communicate through events: each event records its origin and a
//! key-value data map that holds type-specific information, and is passed to
//! downstream handlers through the event bus.

use vstd::prelude::*;
use crate::event_time::{EventTime, LAST_SECOND};
use crate::string_map::{StringMap, insert_all};

pub mod keys;

verus! {

/// Represents the type of event source
#[derive(Debug, Clone, Copy, PartialEq, Eq)]
pub enum EventType {
    Filesystem,
    Webhook,
    Sqs,
    Cron,
    Forwarded,
}

impl EventType {
    /// The lowercase name of the event type.
    pub fn to_string(&self) -> (r: String)
        ensures
            r@ == match *self {
                EventType::Filesystem => "filesystem"@,
                EventType::Webhook => "webhook"@,
                EventType::Sqs => "sqs"@,
                EventType::Cron => "cron"@,
                EventType::Forwarded => "forwarded"@,
            },
    {
        match self {
            EventType::Filesystem => String::from_str("filesystem"),
            EventType::Webhook => String::from_str("webhook"),
            EventType::Sqs => String::from_str("sqs"),
            EventType::Cron => String::from_str("cron"),
            EventType::Forwarded => String::from_str("forwarded"),
        }
    }
}

/// An event that can be passed between handlers via the EventBus.
///
/// Events contain metadata about their origin and a flexible key-value
/// data map that holds type-specific information.
#[derive(Debug)]
pub struct Event {
    /// Unique identifier for this event (UUID v4)
    pub id: String,
    /// Name of the handler that originally created this event
    pub source_handler: String,
    /// Type of event source
    pub event_type: EventType,
    /// When the event was created
    pub timestamp: EventTime,
    /// Type-specific event data as key-value pairs
    pub data: StringMap,
}

impl Clone for Event {
    fn clone(&self) -> (r: Event)
        ensures
            r.id@ == self.id@,
            r.source_handler@ == self.source_handler@,
            r.event_type == self.event_type,
            r.timestamp == self.timestamp,
            r.data@ == self.data@,
    {
        Event {
            id: self.id.clone(),
            source_handler: self.source_handler.clone(),
            event_type: self.event_type,
            timestamp: self.timestamp.copy(),
            data: self.data.copy(),
        }
    }
}

/// A lowercase hexadecimal digit.
pub open spec fn is_lower_hex(c: char) -> bool {
    ('0' <= c && c <= '9') || ('a' <= c && c <= 'f')
}

/// The hyphenated text of a version-4 UUID: 36 characters, hyphens at
/// positions 8, 13, 18 and 23, lowercase hex digits elsewhere, the version
/// digit `4` at position 14 and one of `8`, `9`, `a`, `b` at position 19.
pub open spec fn is_uuid_v4_text(s: Seq<char>) -> bool {
    &&& s.len() == 36
    &&& forall|i: int| 0 <= i < 36 ==> if i == 8 || i == 13 || i == 18 || i == 23 {
        s[i] == '-'
    } else {
        is_lower_hex(#[trigger] s[i])
    }
    &&& s[14] == '4'
    &&& (s[19] == '8' || s[19] == '9' || s[19] == 'a' || s[19] == 'b')
}

/// A fresh random identifier: `uuid::Uuid::new_v4` written with `to_string`,
/// which gives the lowercase hyphenated form. Which identifier comes out is
/// left open; only its shape is stated.
#[verifier::external_body]
fn fresh_event_id() -> (r: String)
    ensures
        is_uuid_v4_text(r@),
{
    uuid::Uuid::new_v4().to_string()
}

impl Event {
    /// Create a new event with the given source and type
    pub fn new(source_handler: &str, event_type: EventType) -> (r: Event)
        ensures
            is_uuid_v4_text(r.id@),
            0 <= r.timestamp.secs_view() < LAST_SECOND,
            r.timestamp.nanos_view() < 1_000_000_000,
            r.source_handler@ == source_handler@,
            r.event_type == event_type,
            r.data@ == Map::<Seq<char>, Seq<char>>::empty(),
    {
        Event {
            id: fresh_event_id(),
            source_handler: source_handler.to_owned(),
            event_type,
            timestamp: EventTime::now(),
            data: StringMap::new(),
        }
    }

    /// Add a key-value pair to the event data
    pub fn with_data(self, key: &str, value: &str) -> (r: Event)
        ensures
            r.id == self.id,
            r.source_handler == self.source_handler,
            r.event_type == self.event_type,
            r.timestamp == self.timestamp,
            r.data@ == self.data@.insert(key@, value@),
    {
        let mut e = self;
        e.data.insert(key.to_owned(), value.to_owned());
        e
    }

    /// Add multiple key-value pairs to the event data
    pub fn with_data_map(self, data: Vec<(String, String)>) -> (r: Event)
        ensures
            r.id == self.id,
            r.source_handler == self.source_handler,
            r.event_type == self.event_type,
            r.timestamp == self.timestamp,
            r.data@ == insert_all(self.data@, data@),
    {
        let mut e = self;
        e.data.insert_pairs(data);
        e
    }

    /// Create an event from a filesystem change
    pub fn from_filesystem(handler_name: &str, path: &str, event_kind: &str) -> (r: Event)
        ensures
            is_uuid_v4_text(r.id@),
            0 <= r.timestamp.secs_view() < LAST_SECOND,
            r.timestamp.nanos_view() < 1_000_000_000,
            r.source_handler@ == handler_name@,
            r.event_type == EventType::Filesystem,
            r.data@ == Map::<Seq<char>, Seq<char>>::empty().insert(keys::FILE_PATH@, path@)
                .insert(keys::FILE_EVENT_KIND@, event_kind@),
    {
        Self::new(handler_name, EventType::Filesystem)
            .with_data(keys::FILE_PATH, path)
            .with_data(keys::FILE_EVENT_KIND, event_kind)
    }

    /// Create an event from a webhook request
    pub fn from_webhook(handler_name: &str, method: &str, uri: &str, body: &str) -> (r: Event)
        ensures
            is_uuid_v4_text(r.id@),
            0 <= r.timestamp.secs_view() < LAST_SECOND,
            r.timestamp.nanos_view() < 1_000_000_000,
            r.source_handler@ == handler_name@,
            r.event_type == EventType::Webhook,
            r.data@ == Map::<Seq<char>, Seq<char>>::empty().insert(keys::HTTP_METHOD@, method@)
                .insert(keys::HTTP_URI@, uri@).insert(keys::HTTP_BODY@, body@),
    {
        Self::new(handler_name, EventType::Webhook)
            .with_data(keys::HTTP_METHOD, method)
            .with_data(keys::HTTP_URI, uri)
            .with_data(keys::HTTP_BODY, body)
    }

    /// Create an event from a webhook request with headers
    pub fn from_webhook_with_headers(
        handler_name: &str,
        method: &str,
        uri: &str,
        body: &str,
        headers: &str,
    ) -> (r: Event)
        ensures
            is_uuid_v4_text(r.id@),
            0 <= r.timestamp.secs_view() < LAST_SECOND,
            r.timestamp.nanos_view() < 1_000_000_000,
            r.source_handler@ == handler_name@,
            r.event_type == EventType::Webhook,
            r.data@ == Map::<Seq<char>, Seq<char>>::empty().insert(keys::HTTP_METHOD@, method@)
                .insert(keys::HTTP_URI@, uri@).insert(keys::HTTP_BODY@, body@)
                .insert(keys::HTTP_HEADERS@, headers@),
    {
        Self::from_webhook(handler_name, method, uri, body).with_data(keys::HTTP_HEADERS, headers)
    }

    /// Create an event from an SQS message
    pub fn from_sqs(handler_name: &str, message_body: &str, message_id: &str, receipt_handle: &str) -> (r: Event)
        ensures
            is_uuid_v4_text(r.id@),
            0 <= r.timestamp.secs_view() < LAST_SECOND,
            r.timestamp.nanos_view() < 1_000_000_000,
            r.source_handler@ == handler_name@,
            r.event_type == EventType::Sqs,
            r.data@ == Map::<Seq<char>, Seq<char>>::empty().insert(keys::SQS_MESSAGE_BODY@, message_body@)
                .insert(keys::SQS_MESSAGE_ID@, message_id@).insert(keys::SQS_RECEIPT_HANDLE@, receipt_handle@),
    {
        Self::new(handler_name, EventType::Sqs)
            .with_data(keys::SQS_MESSAGE_BODY, message_body)
            .with_data(keys::SQS_MESSAGE_ID, message_id)
            .with_data(keys::SQS_RECEIPT_HANDLE, receipt_handle)
    }

    /// Create an event from a cron trigger
    pub fn from_cron(handler_name: &str, expression: &str, scheduled_time: &EventTime) -> (r: Event)
        ensures
            is_uuid_v4_text(r.id@),
            0 <= r.timestamp.secs_view() < LAST_SECOND,
            r.timestamp.nanos_view() < 1_000_000_000,
            r.source_handler@ == handler_name@,
            r.event_type == EventType::Cron,
            r.data@ == Map::<Seq<char>, Seq<char>>::empty().insert(keys::CRON_EXPRESSION@, expression@)
                .insert(keys::CRON_SCHEDULED_TIME@, scheduled_time.rfc3339_view()),
    {
        let when = scheduled_time.to_rfc3339();
        Self::new(handler_name, EventType::Cron)
            .with_data(keys::CRON_EXPRESSION, expression)
            .with_data(keys::CRON_SCHEDULED_TIME, when.as_str())
    }

    /// Create a forwarded event that wraps an existing event
    ///
    /// The original event's data is preserved, and the event_type
    /// is changed to Forwarded while keeping the original source_handler.
    pub fn forwarded(original: &Event) -> (r: Event)
        ensures
            is_uuid_v4_text(r.id@),
            0 <= r.timestamp.secs_view() < LAST_SECOND,
            r.timestamp.nanos_view() < 1_000_000_000,
            r.source_handler@ == original.source_handler@,
            r.event_type == EventType::Forwarded,
            r.data@ == original.data@,
    {
        Event {
            id: fresh_event_id(),
            source_handler: original.source_handler.clone(),
            event_type: EventType::Forwarded,
            timestamp: EventTime::now(),
            data: original.data.copy(),
        }
    }

    /// Get a data value by key
    pub fn get(&self, key: &str) -> (r: Option<&String>)
        ensures
            match r {
                Some(v) => self.data@.contains_key(key@) && v@ == self.data@[key@],
                None => !self.data@.contains_key(key@),
            },
    {
        self.data.get(key)
    }
}


/// Reading an event's data after `with_data(key, value)` gives back `value`
/// for `key` and leaves every other key as it was.
pub proof fn lemma_read_after_with_data(
    data: Map<Seq<char>, Seq<char>>,
    key: Seq<char>,
    value: Seq<char>,
    other: Seq<char>,
)
    ensures
        data.insert(key, value).contains_key(key),
        data.insert(key, value)[key] == value,
        other != key ==> data.insert(key, value).contains_key(other) == data.contains_key(other),
        other != key && data.contains_key(other) ==> data.insert(key, value)[other] == data[other],
{
}

} // verus!
