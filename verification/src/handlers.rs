//! The per-source handlers.

pub mod webhook_handler;
pub mod cron_handler;
pub mod filesystem_handler;
pub mod sqs_handler;
