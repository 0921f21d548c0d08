//! Which handlers start, and with what, given their configuration.

use vstd::prelude::*;
use crate::config::{EventType, HandlerConfig};

verus! {

/// How a configured handler is started.
#[derive(Debug, Clone, PartialEq)]
pub enum HandlerPlan {
    /// Poll the queue every `poll_interval` seconds.
    Sqs { queue_url: String, poll_interval: u64 },
    /// Listen on the port for requests on the path.
    Webhook { port: u16, path: String },
    /// Watch the path.
    Filesystem { path: String },
    /// Run on the schedule.
    Cron { cron_expression: String },
    /// A required option is missing; the handler is skipped.
    MissingOptions,
    /// A cron handler without an expression; reported as an error.
    MissingCronExpression,
    /// A source that is not implemented yet; reported as a warning.
    NotImplemented,
}

/// The plan for a handler: its source and the options that source needs.
pub fn plan_handler(h: &HandlerConfig) -> (p: HandlerPlan)
    ensures
        match h.event_type {
            EventType::Sqs => match (h.options.queue_url, h.options.poll_interval) {
                (Some(q), Some(i)) => p matches HandlerPlan::Sqs { queue_url, poll_interval }
                    && queue_url@ == q@ && poll_interval == i,
                _ => p == HandlerPlan::MissingOptions,
            },
            EventType::Webhook => match (h.options.port, h.options.path) {
                (Some(port0), Some(path0)) => p matches HandlerPlan::Webhook { port, path }
                    && port == port0 && path@ == path0@,
                _ => p == HandlerPlan::MissingOptions,
            },
            EventType::Filesystem => match h.options.path {
                Some(path0) => p matches HandlerPlan::Filesystem { path } && path@ == path0@,
                None => p == HandlerPlan::MissingOptions,
            },
            EventType::Cron => match h.options.cron_expression {
                Some(e) => p matches HandlerPlan::Cron { cron_expression } && cron_expression@ == e@,
                None => p == HandlerPlan::MissingCronExpression,
            },
            EventType::WebPolling | EventType::Database => p == HandlerPlan::NotImplemented,
        },
{
    match h.event_type {
        EventType::Sqs => match (&h.options.queue_url, h.options.poll_interval) {
            (Some(q), Some(i)) => HandlerPlan::Sqs { queue_url: q.clone(), poll_interval: i },
            _ => HandlerPlan::MissingOptions,
        },
        EventType::Webhook => match (h.options.port, &h.options.path) {
            (Some(port), Some(path)) => HandlerPlan::Webhook { port, path: path.clone() },
            _ => HandlerPlan::MissingOptions,
        },
        EventType::Filesystem => match &h.options.path {
            Some(path) => HandlerPlan::Filesystem { path: path.clone() },
            None => HandlerPlan::MissingOptions,
        },
        EventType::Cron => match &h.options.cron_expression {
            Some(e) => HandlerPlan::Cron { cron_expression: e.clone() },
            None => HandlerPlan::MissingCronExpression,
        },
        EventType::WebPolling => HandlerPlan::NotImplemented,
        EventType::Database => HandlerPlan::NotImplemented,
    }
}

} // verus!
