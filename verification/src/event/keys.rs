//! Common event keys used across different event types

use vstd::prelude::*;

verus! {

// Common keys
pub const SOURCE_HANDLER: &'static str = "source_handler";
pub const EVENT_TYPE: &'static str = "event_type";

// Filesystem event keys
pub const FILE_PATH: &'static str = "file_path";
pub const FILE_EVENT_KIND: &'static str = "file_event_kind";

// Webhook event keys
pub const HTTP_METHOD: &'static str = "http_method";
pub const HTTP_URI: &'static str = "http_uri";
pub const HTTP_BODY: &'static str = "http_body";
pub const HTTP_HEADERS: &'static str = "http_headers";

// SQS event keys
pub const SQS_MESSAGE_BODY: &'static str = "sqs_message_body";
pub const SQS_MESSAGE_ID: &'static str = "sqs_message_id";
pub const SQS_RECEIPT_HANDLE: &'static str = "sqs_receipt_handle";

// Cron event keys
pub const CRON_EXPRESSION: &'static str = "cron_expression";
pub const CRON_SCHEDULED_TIME: &'static str = "cron_scheduled_time";

} // verus!
