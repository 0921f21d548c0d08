//! The decisions of the SQS poller about a processed message.

use vstd::prelude::*;
use crate::command_executor::CommandResult;
use crate::event::Event;
use crate::event::keys;

verus! {

/// What the poller does with a message once its command has run.
#[derive(Debug, Clone, Copy, PartialEq, Eq)]
pub struct MessageDisposition {
    /// Delete the message from the queue.
    pub delete: bool,
    /// Forward an event for the message to the handler's targets.
    pub forward: bool,
}

/// A message whose command succeeded is deleted, and forwarded when the
/// handler has targets; a failed one stays in the queue to be retried.
pub fn message_disposition(result: &CommandResult, has_forward_targets: bool) -> (d: MessageDisposition)
    ensures
        d.delete == (*result is Success),
        d.forward == (*result is Success && has_forward_targets),
{
    let ok = result.is_success();
    MessageDisposition { delete: ok, forward: ok && has_forward_targets }
}

/// The event forwarded for a processed message: its body, id and receipt
/// handle under their keys, each empty when the message lacks it.
pub fn message_forward_event(
    handler_name: &str,
    body: Option<&str>,
    message_id: Option<&str>,
    receipt_handle: Option<&str>,
) -> (r: Event)
    ensures
        r.source_handler@ == handler_name@,
        r.event_type == crate::event::EventType::Sqs,
        r.data@ == Map::<Seq<char>, Seq<char>>::empty()
            .insert(keys::SQS_MESSAGE_BODY@, match body { Some(s) => s@, None => Seq::<char>::empty() })
            .insert(keys::SQS_MESSAGE_ID@, match message_id { Some(s) => s@, None => Seq::<char>::empty() })
            .insert(keys::SQS_RECEIPT_HANDLE@, match receipt_handle { Some(s) => s@, None => Seq::<char>::empty() }),
{
    proof {
        reveal_strlit("");
        assert(""@ =~= Seq::<char>::empty());
    }
    let id = match message_id {
        Some(s) => s,
        None => "",
    };
    let text = match body {
        Some(s) => s,
        None => "",
    };
    let receipt = match receipt_handle {
        Some(s) => s,
        None => "",
    };
    Event::from_sqs(handler_name, text, id, receipt)
}

} // verus!
