//! Event bus for inter-handler communication.
//!
//! The EventBus manages channels that allow handlers to forward events to each other.
//! Each handler registers with the EventBus to receive a channel for incoming events,
//! and can send events to other handlers by name.

use vstd::prelude::*;
use crate::event::Event;
use crate::text::{str_eq, strings_view};
use tokio::sync::mpsc::{UnboundedReceiver, UnboundedSender};

verus! {

#[verifier::external_type_specification]
#[verifier::external_body]
#[verifier::reject_recursive_types(T)]
pub struct ExUnboundedSender<T>(UnboundedSender<T>);

#[verifier::external_type_specification]
#[verifier::external_body]
#[verifier::reject_recursive_types(T)]
pub struct ExUnboundedReceiver<T>(UnboundedReceiver<T>);

/// The channel that a sending end belongs to.
pub uninterp spec fn sender_channel(tx: UnboundedSender<Event>) -> int;

/// The channel that a receiving end belongs to.
pub uninterp spec fn receiver_channel(rx: UnboundedReceiver<Event>) -> int;

/// A new channel from `tokio::sync::mpsc::unbounded_channel`: its two ends
/// belong to the one channel it creates. Nothing else is stated of them.
#[verifier::external_body]
fn new_event_channel() -> (r: (UnboundedSender<Event>, UnboundedReceiver<Event>))
    ensures
        sender_channel(r.0) == receiver_channel(r.1),
{
    tokio::sync::mpsc::unbounded_channel()
}

/// `UnboundedSender::send`: whether the event was queued. That depends on
/// whether the receiving end still exists, so nothing is stated of the result.
#[verifier::external_body]
fn deliver(sender: &UnboundedSender<Event>, event: Event) -> bool {
    sender.send(event).is_ok()
}

/// Errors that can occur when using the EventBus
#[derive(Debug, Clone, PartialEq)]
pub enum EventBusError {
    /// The target handler is not registered
    HandlerNotFound { handler: String },
    /// Failed to send event (channel closed)
    SendFailed { handler: String },
    /// Handler is already registered
    AlreadyRegistered { handler: String },
}

impl EventBusError {
    /// The human-readable message of the error.
    pub fn to_string(&self) -> (r: String)
        ensures
            r@ == match self {
                EventBusError::HandlerNotFound { handler } =>
                    "Handler '"@ + handler@ + "' not found in event bus"@,
                EventBusError::SendFailed { handler } =>
                    "Failed to send event to handler '"@ + handler@ + "'"@,
                EventBusError::AlreadyRegistered { handler } =>
                    "Handler '"@ + handler@ + "' is already registered"@,
            },
    {
        match self {
            EventBusError::HandlerNotFound { handler } => {
                let mut s = String::from_str("Handler '");
                s.append(handler.as_str());
                s.append("' not found in event bus");
                s
            },
            EventBusError::SendFailed { handler } => {
                let mut s = String::from_str("Failed to send event to handler '");
                s.append(handler.as_str());
                s.append("'");
                s
            },
            EventBusError::AlreadyRegistered { handler } => {
                let mut s = String::from_str("Handler '");
                s.append(handler.as_str());
                s.append("' is already registered");
                s
            },
        }
    }
}

/// Result of sending an event to a handler
#[derive(Debug)]
pub struct SendResult {
    pub handler: String,
    pub result: Result<(), EventBusError>,
}

/// What sending to `target` may give: `HandlerNotFound` exactly when it is
/// not registered; otherwise success, or `SendFailed` when its receiver is gone.
pub open spec fn send_outcome_ok(registered: Seq<Seq<char>>, target: Seq<char>, r: Result<(), EventBusError>) -> bool {
    if registered.contains(target) {
        r is Ok || (r matches Err(EventBusError::SendFailed { handler }) && handler@ == target)
    } else {
        r matches Err(EventBusError::HandlerNotFound { handler }) && handler@ == target
    }
}

/// Event bus for routing events between handlers.
///
/// The EventBus maintains a registry of handler channels. Handlers register
/// to receive events, and can send events to other handlers by name.
pub struct EventBus {
    /// Handler names with their event senders
    senders: Vec<(String, UnboundedSender<Event>)>,
}

pub open spec fn sender_names(s: Seq<(String, UnboundedSender<Event>)>) -> Seq<Seq<char>> {
    s.map_values(|p: (String, UnboundedSender<Event>)| p.0@)
}

/// The names of a sequence of (name, sender) channels, in order.
pub open spec fn channel_names(c: Seq<(Seq<char>, UnboundedSender<Event>)>) -> Seq<Seq<char>> {
    c.map_values(|p: (Seq<char>, UnboundedSender<Event>)| p.0)
}

impl View for EventBus {
    /// The registered handler names, in the order they registered.
    type V = Seq<Seq<char>>;

    closed spec fn view(&self) -> Seq<Seq<char>> {
        sender_names(self.senders@)
    }
}

impl EventBus {
    #[verifier::type_invariant]
    spec fn inv(self) -> bool {
        sender_names(self.senders@).no_duplicates()
    }

    /// The registered handlers with the sending end of each one's channel,
    /// in the order they registered.
    pub closed spec fn channels(&self) -> Seq<(Seq<char>, UnboundedSender<Event>)> {
        self.senders@.map_values(|p: (String, UnboundedSender<Event>)| (p.0@, p.1))
    }

    /// The registered names are the names of the channels.
    pub proof fn lemma_names_of_channels(&self)
        ensures
            self@ == channel_names(self.channels()),
    {
        assert(self@ =~= channel_names(self.channels()));
    }

    /// Create a new empty EventBus
    pub fn new() -> (r: EventBus)
        ensures
            r@ == Seq::<Seq<char>>::empty(),
    {
        let r = EventBus { senders: Vec::new() };
        assert(r@ =~= Seq::<Seq<char>>::empty());
        r
    }

    fn position(&self, handler_id: &str) -> (r: Option<usize>)
        ensures
            match r {
                Some(i) => (i as int) < self.senders@.len() && self@[i as int] == handler_id@
                    && forall|j: int| 0 <= j < i ==> self@[j] != handler_id@,
                None => !self@.contains(handler_id@),
            },
    {
        let ghost names = self@;
        let mut i: usize = 0;
        while i < self.senders.len()
            invariant
                i <= self.senders.len(),
                names == sender_names(self.senders@),
                forall|j: int| 0 <= j < i ==> names[j] != handler_id@,
            decreases self.senders.len() - i,
        {
            if str_eq(self.senders[i].0.as_str(), handler_id) {
                return Some(i);
            }
            i = i + 1;
        }
        None
    }

    /// Register a handler to receive events.
    ///
    /// Returns an unbounded receiver that the handler can use to receive forwarded events,
    /// or `EventBusError::AlreadyRegistered` if a handler with this name is already registered.
    pub fn register(&mut self, handler_id: &str) -> (r: Result<UnboundedReceiver<Event>, EventBusError>)
        ensures
            old(self)@.contains(handler_id@) ==> final(self)@ == old(self)@
                && (r matches Err(EventBusError::AlreadyRegistered { handler }) && handler@ == handler_id@),
            !old(self)@.contains(handler_id@) ==> final(self)@ == old(self)@.push(handler_id@) && r is Ok,
            final(self)@.no_duplicates(),
            old(self)@.contains(handler_id@) ==> final(self).channels() == old(self).channels(),
            !old(self)@.contains(handler_id@) ==> exists|tx: UnboundedSender<Event>|
                final(self).channels() == old(self).channels().push((handler_id@, tx))
                && (r matches Ok(rx) && sender_channel(tx) == receiver_channel(rx)),
    {
        proof {
            use_type_invariant(&*self);
        }
        if self.position(handler_id).is_some() {
            return Err(EventBusError::AlreadyRegistered { handler: handler_id.to_owned() });
        }
        let (tx, rx) = new_event_channel();
        let ghost old_names = self@;
        let ghost old_channels = self.channels();
        let ghost new_tx = tx;
        let mut senders: Vec<(String, UnboundedSender<Event>)> = Vec::new();
        std::mem::swap(&mut senders, &mut self.senders);
        senders.push((handler_id.to_owned(), tx));
        proof {
            assert(sender_names(senders@) =~= old_names.push(handler_id@));
            assert forall|a: int, b: int| 0 <= a < sender_names(senders@).len() && 0 <= b < sender_names(senders@).len()
                && a != b implies sender_names(senders@)[a] != sender_names(senders@)[b] by {
                if a < old_names.len() && b < old_names.len() {
                    assert(old_names[a] != old_names[b]);
                } else if a < old_names.len() {
                    assert(old_names[a] == sender_names(senders@)[a]);
                } else {
                    assert(old_names[b] == sender_names(senders@)[b]);
                }
            }
        }
        self.senders = senders;
        assert(self.channels() =~= old_channels.push((handler_id@, new_tx)));
        Ok(rx)
    }

    /// Unregister a handler from the event bus.
    ///
    /// After unregistration, events can no longer be sent to this handler.
    /// Returns true if the handler was registered and removed, false if not found.
    pub fn unregister(&mut self, handler_id: &str) -> (removed: bool)
        ensures
            removed == old(self)@.contains(handler_id@),
            final(self)@ == old(self)@.remove_value(handler_id@),
            final(self)@.no_duplicates(),
            !final(self)@.contains(handler_id@),
            !removed ==> final(self).channels() == old(self).channels(),
            removed ==> exists|i: int| 0 <= i < old(self).channels().len() && old(self).channels()[i].0 == handler_id@
                && final(self).channels() == old(self).channels().remove(i),
    {
        proof {
            use_type_invariant(&*self);
            self@.index_of_first_ensures(handler_id@);
        }
        let ghost old_names = self@;
        let ghost old_channels = self.channels();
        match self.position(handler_id) {
            Some(i) => {
                let mut senders: Vec<(String, UnboundedSender<Event>)> = Vec::new();
                std::mem::swap(&mut senders, &mut self.senders);
                let _ = senders.remove(i);
                proof {
                    let idx = old_names.index_of_first(handler_id@).unwrap();
                    assert(idx == i as int) by {
                        if idx < i as int {
                        } else if (i as int) < idx {
                        }
                    }
                    assert(sender_names(senders@) =~= old_names.remove(i as int));
                    assert forall|a: int, b: int| 0 <= a < sender_names(senders@).len() && 0 <= b < sender_names(senders@).len()
                        && a != b implies sender_names(senders@)[a] != sender_names(senders@)[b] by {
                        let oa = if a < i { a } else { a + 1 };
                        let ob = if b < i { b } else { b + 1 };
                        assert(sender_names(senders@)[a] == old_names[oa]);
                        assert(sender_names(senders@)[b] == old_names[ob]);
                    }
                }
                self.senders = senders;
                proof {
                    assert(self.channels() =~= old_channels.remove(i as int));
                    assert(old_channels[i as int].0 == old_names[i as int]);
                    if self@.contains(handler_id@) {
                        let k = choose|k: int| 0 <= k < self@.len() && self@[k] == handler_id@;
                        let ok = if k < i { k } else { k + 1 };
                        assert(self@[k] == old_names[ok]);
                        assert(old_names[ok] == old_names[i as int]);
                    }
                }
                true
            },
            None => false,
        }
    }

    /// The sending end registered under `target`, if any.
    pub fn sender_for(&self, target: &str) -> (r: Option<&UnboundedSender<Event>>)
        ensures
            match r {
                Some(tx) => self@.contains(target@) && exists|i: int| 0 <= i < self.channels().len()
                    && self.channels()[i] == (target@, *tx),
                None => !self@.contains(target@),
            },
    {
        match self.position(target) {
            Some(i) => {
                let tx = &self.senders[i].1;
                assert(self.channels()[i as int] == (target@, *tx));
                assert(self@[i as int] == target@);
                Some(tx)
            },
            None => None,
        }
    }

    /// Send an event to a specific handler.
    ///
    /// Fails with `EventBusError::HandlerNotFound` if the target handler is not registered,
    /// and with `EventBusError::SendFailed` if the channel is closed (handler has stopped).
    pub fn send(&self, target_handler: &str, event: Event) -> (r: Result<(), EventBusError>)
        ensures
            send_outcome_ok(self@, target_handler@, r),
    {
        match self.sender_for(target_handler) {
            Some(tx) => {
                if deliver(tx, event) {
                    Ok(())
                } else {
                    Err(EventBusError::SendFailed { handler: target_handler.to_owned() })
                }
            },
            None => {
                Err(EventBusError::HandlerNotFound { handler: target_handler.to_owned() })
            },
        }
    }

    /// Send an event to multiple handlers.
    ///
    /// Returns a vector of results, one for each target handler, in order.
    /// This allows callers to handle partial failures.
    pub fn send_many(&self, targets: &Vec<String>, event: Event) -> (r: Vec<SendResult>)
        ensures
            r@.len() == targets@.len(),
            forall|i: int| 0 <= i < targets@.len() ==> #[trigger] r@[i].handler@ == targets@[i]@
                && send_outcome_ok(self@, targets@[i]@, r@[i].result),
    {
        let mut results: Vec<SendResult> = Vec::new();
        let mut i: usize = 0;
        while i < targets.len()
            invariant
                i <= targets.len(),
                results@.len() == i,
                forall|j: int| 0 <= j < i ==> #[trigger] sent_as_asked(self@, targets@[j], results@[j]),
            decreases targets.len() - i,
        {
            let result = self.send(targets[i].as_str(), event.clone());
            results.push(SendResult { handler: targets[i].clone(), result });
            assert(sent_as_asked(self@, targets@[i as int], results@[i as int]));
            i = i + 1;
        }
        assert forall|j: int| 0 <= j < targets@.len() implies #[trigger] results@[j].handler@ == targets@[j]@
            && send_outcome_ok(self@, targets@[j]@, results@[j].result) by {
            assert(sent_as_asked(self@, targets@[j], results@[j]));
        }
        results
    }

    /// Check if a handler is registered
    pub fn is_registered(&self, handler_id: &str) -> (r: bool)
        ensures
            r == self@.contains(handler_id@),
    {
        self.position(handler_id).is_some()
    }

    /// Get the number of registered handlers
    pub fn handler_count(&self) -> (r: usize)
        ensures
            r == self@.len(),
    {
        self.senders.len()
    }

    /// Get the names of all registered handlers
    pub fn registered_handlers(&self) -> (r: Vec<String>)
        ensures
            strings_view(r@) == self@,
            self@.no_duplicates(),
    {
        proof {
            use_type_invariant(self);
        }
        let mut names: Vec<String> = Vec::new();
        let mut i: usize = 0;
        while i < self.senders.len()
            invariant
                i <= self.senders.len(),
                names@.len() == i,
                strings_view(names@) == self@.take(i as int),
            decreases self.senders.len() - i,
        {
            let ghost before = names@;
            let name = self.senders[i].0.clone();
            assert(self@[i as int] == name@);
            names.push(name);
            assert(names@ =~= before.push(name));
            assert(strings_view(names@) =~= self@.take(i + 1));
            i = i + 1;
        }
        assert(self@.take(self.senders.len() as int) =~= self@);
        names
    }
}

/// The result reports on `target` as sending to it may.
pub open spec fn sent_as_asked(registered: Seq<Seq<char>>, target: String, sr: SendResult) -> bool {
    sr.handler@ == target@ && send_outcome_ok(registered, target@, sr.result)
}

impl Default for EventBus {
    fn default() -> (r: EventBus)
        ensures
            r@ == Seq::<Seq<char>>::empty(),
    {
        EventBus::new()
    }
}

/// Registering a new name and then unregistering it leaves the registry as
/// it was.
pub proof fn lemma_register_then_unregister(registry: Seq<Seq<char>>, name: Seq<char>)
    requires
        !registry.contains(name),
    ensures
        registry.push(name).contains(name),
        registry.push(name).remove_value(name) == registry,
        registry.push(name).len() == registry.len() + 1,
{
    let s = registry.push(name);
    assert(s[registry.len() as int] == name);
    s.index_of_first_ensures(name);
    let i = s.index_of_first(name).unwrap();
    if i < registry.len() {
        assert(registry[i] == name);
    }
    assert(s.remove(i) =~= registry);
}

} // verus!
