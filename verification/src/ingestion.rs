//! The ingestor: the one sink that every connector of a running pipeline
//! hands its captured change events to.

use vstd::prelude::*;
use vstd::std_specs::cmp::PartialEqSpecImpl;
use std::sync::Arc;
use parking_lot::lock_api::RwLock;
use parking_lot::lock_api::RwLockWriteGuard;
use parking_lot::RawRwLock;
use crate::errors::IngestorError;

verus! {

/// A captured change event. The ingestor does not look inside the payload.
#[derive(Debug)]
pub struct IngestionMessage {
    pub payload: Vec<u8>,
}

impl View for IngestionMessage {
    type V = Seq<u8>;

    open spec fn view(&self) -> Seq<u8> {
        self.payload@
    }
}

impl IngestionMessage {
    pub fn new(payload: Vec<u8>) -> (message: Self)
        ensures
            message@ == payload@,
    {
        IngestionMessage { payload }
    }
}

impl Clone for IngestionMessage {
    fn clone(&self) -> (copy: Self)
        ensures
            copy@ == self@,
    {
        IngestionMessage { payload: self.payload.clone() }
    }
}

impl PartialEq for IngestionMessage {
    fn eq(&self, other: &Self) -> (equal: bool)
    {
        if self.payload.len() != other.payload.len() {
            return false;
        }
        let mut i: usize = 0;
        while i < self.payload.len()
            invariant
                i <= self.payload.len(),
                self.payload.len() == other.payload.len(),
                self.payload@.take(i as int) == other.payload@.take(i as int),
            decreases self.payload.len() - i,
        {
            if self.payload[i] != other.payload[i] {
                return false;
            }
            assert(self.payload@.take(i + 1) =~= self.payload@.take(i as int).push(
                self.payload@[i as int],
            ));
            assert(other.payload@.take(i + 1) =~= other.payload@.take(i as int).push(
                other.payload@[i as int],
            ));
            i = i + 1;
        }
        assert(self.payload@ =~= self.payload@.take(i as int));
        assert(other.payload@ =~= other.payload@.take(i as int));
        true
    }
}

impl PartialEqSpecImpl for IngestionMessage {
    open spec fn obeys_eq_spec() -> bool {
        true
    }

    open spec fn eq_spec(&self, other: &Self) -> bool {
        self@ == other@
    }
}

impl Eq for IngestionMessage {}

/// A message as the ingestor keeps it: the identity of the connector that
/// delivered it, and the payload.
pub type TaggedMessage = (u64, Seq<u8>);

/// Mathematical value of an [`Ingestor`].
pub struct IngestorView {
    /// The accepted messages, oldest first.
    pub messages: Seq<TaggedMessage>,
    /// Whether the ingestor has been stopped.
    pub stopped: bool,
}

/// The mathematical values of a sequence of messages with the identities of
/// their connectors.
pub open spec fn message_views(messages: Seq<(u64, IngestionMessage)>) -> Seq<TaggedMessage> {
    messages.map_values(|message: (u64, IngestionMessage)| (message.0, message.1@))
}

/// Something that happens to an ingestor: a connector delivers a message, or
/// the ingestor is stopped.
pub enum IngestorEvent {
    Deliver(TaggedMessage),
    Stop,
}

impl IngestorView {
    /// The state after one delivery attempt: a running ingestor appends the
    /// message, a stopped one stays as it is.
    pub open spec fn handle(self, message: TaggedMessage) -> IngestorView {
        if self.stopped {
            self
        } else {
            IngestorView { messages: self.messages.push(message), stopped: false }
        }
    }

    /// The state after the ingestor is stopped.
    pub open spec fn stop(self) -> IngestorView {
        IngestorView { messages: self.messages, stopped: true }
    }

    /// The state after one event.
    pub open spec fn step(self, event: IngestorEvent) -> IngestorView {
        match event {
            IngestorEvent::Deliver(message) => self.handle(message),
            IngestorEvent::Stop => self.stop(),
        }
    }

    /// The state after the events of `events`, taken one after the other in
    /// the order of the sequence. Writers take turns at the lock, so whatever
    /// the connectors of a pipeline do to their ingestor is such a sequence.
    pub open spec fn run(self, events: Seq<IngestorEvent>) -> IngestorView
        decreases events.len(),
    {
        if events.len() == 0 {
            self
        } else {
            self.run(events.drop_last()).step(events.last())
        }
    }

    /// The messages of the deliveries among `events` that succeed, in the
    /// order of the sequence: those that reach the ingestor while it runs.
    pub open spec fn accepted(self, events: Seq<IngestorEvent>) -> Seq<TaggedMessage>
        decreases events.len(),
    {
        if events.len() == 0 {
            Seq::empty()
        } else {
            let before = self.accepted(events.drop_last());
            match events.last() {
                IngestorEvent::Deliver(message) => if self.run(events.drop_last()).stopped {
                    before
                } else {
                    before.push(message)
                },
                IngestorEvent::Stop => before,
            }
        }
    }
}

/// The shared sink for captured change events. It keeps the accepted messages
/// in the order in which they were accepted, until the consumer takes them.
pub struct Ingestor {
    messages: Vec<(u64, IngestionMessage)>,
    stopped: bool,
}

impl View for Ingestor {
    type V = IngestorView;

    closed spec fn view(&self) -> IngestorView {
        IngestorView { messages: message_views(self.messages@), stopped: self.stopped }
    }
}

impl Ingestor {
    /// A running ingestor that holds no message.
    pub fn new() -> (ingestor: Self)
        ensures
            ingestor@.messages == Seq::<TaggedMessage>::empty(),
            !ingestor@.stopped,
    {
        let ingestor = Ingestor { messages: Vec::new(), stopped: false };
        assert(ingestor@.messages =~= Seq::<TaggedMessage>::empty());
        ingestor
    }

    /// Accepts one message together with the identity of the connector that
    /// delivers it. A running ingestor appends it behind the messages it
    /// already holds; a stopped one refuses it and keeps its state.
    pub fn handle_message(&mut self, message: (u64, IngestionMessage)) -> (result: Result<
        (),
        IngestorError,
    >)
        ensures
            final(self)@ == old(self)@.handle((message.0, message.1@)),
            result is Ok <==> !old(self)@.stopped,
            result is Err ==> result == Err::<(), IngestorError>(IngestorError::Stopped),
    {
        if self.stopped {
            Err(IngestorError::Stopped)
        } else {
            self.messages.push(message);
            assert(self@.messages =~= old(self)@.messages.push((message.0, message.1@)));
            Ok(())
        }
    }

    /// Stops the ingestor. Messages accepted so far stay available. Stopping
    /// a stopped ingestor changes nothing.
    pub fn stop(&mut self)
        ensures
            final(self)@ == old(self)@.stop(),
    {
        self.stopped = true;
    }

    pub fn is_stopped(&self) -> (stopped: bool)
        ensures
            stopped == self@.stopped,
    {
        self.stopped
    }

    /// Number of accepted messages that the consumer has not taken yet.
    pub fn len(&self) -> (count: usize)
        ensures
            count == self@.messages.len(),
    {
        self.messages.len()
    }

    /// Hands all accepted messages to the consumer, oldest first, and keeps
    /// none of them.
    pub fn take_messages(&mut self) -> (taken: Vec<(u64, IngestionMessage)>)
        ensures
            message_views(taken@) == old(self)@.messages,
            final(self)@.messages == Seq::<TaggedMessage>::empty(),
            final(self)@.stopped == old(self)@.stopped,
    {
        let mut taken: Vec<(u64, IngestionMessage)> = Vec::new();
        std::mem::swap(&mut self.messages, &mut taken);
        assert(self@.messages =~= Seq::<TaggedMessage>::empty());
        taken
    }
}

/// No delivery is lost and none is kept twice: whatever sequence of
/// deliveries and stops an ingestor goes through, it then holds what it held
/// before, followed by the message of every delivery that succeeded, once
/// each and in the order of delivery. So the number of messages that it
/// accepted is the number of deliveries that succeeded.
pub proof fn lemma_deliveries_are_kept_once(before: IngestorView, events: Seq<IngestorEvent>)
    ensures
        before.run(events).messages == before.messages + before.accepted(events),
        before.run(events).messages.len() == before.messages.len() + before.accepted(events).len(),
        before.stopped ==> before.run(events) == before,
    decreases events.len(),
{
    if events.len() > 0 {
        lemma_deliveries_are_kept_once(before, events.drop_last());
        let earlier = before.accepted(events.drop_last());
        match events.last() {
            IngestorEvent::Deliver(message) => {
                assert((before.messages + earlier).push(message) =~= before.messages
                    + earlier.push(message));
            },
            IngestorEvent::Stop => {},
        }
    } else {
        assert(before.messages + before.accepted(events) =~= before.messages);
    }
}

/// The messages of `messages` that the connector `connector` delivered, in
/// the order of the sequence.
pub open spec fn from_connector(messages: Seq<TaggedMessage>, connector: u64) -> Seq<
    TaggedMessage,
>
    decreases messages.len(),
{
    if messages.len() == 0 {
        Seq::empty()
    } else if messages.last().0 == connector {
        from_connector(messages.drop_last(), connector).push(messages.last())
    } else {
        from_connector(messages.drop_last(), connector)
    }
}

/// What is left of `events` when the deliveries of all connectors but
/// `connector` are taken out: its own deliveries and the stops, in the order
/// of the sequence.
pub open spec fn events_of(events: Seq<IngestorEvent>, connector: u64) -> Seq<IngestorEvent>
    decreases events.len(),
{
    if events.len() == 0 {
        Seq::empty()
    } else {
        match events.last() {
            IngestorEvent::Deliver(message) => if message.0 == connector {
                events_of(events.drop_last(), connector).push(events.last())
            } else {
                events_of(events.drop_last(), connector)
            },
            IngestorEvent::Stop => events_of(events.drop_last(), connector).push(events.last()),
        }
    }
}

/// The deliveries of other connectors neither reorder nor drop nor repeat
/// the messages of a connector: however the deliveries of several connectors
/// are interleaved, the messages that the ingestor accepts from one of them
/// are those that it would accept from that connector alone, under the same
/// stops, and they stand in the order in which that connector delivered them.
pub proof fn lemma_each_connector_keeps_its_order(
    before: IngestorView,
    events: Seq<IngestorEvent>,
    connector: u64,
)
    ensures
        before.run(events).stopped == before.run(events_of(events, connector)).stopped,
        from_connector(before.accepted(events), connector) == before.accepted(
            events_of(events, connector),
        ),
    decreases events.len(),
{
    if events.len() > 0 {
        let front = events.drop_last();
        let own = events_of(front, connector);
        lemma_each_connector_keeps_its_order(before, front, connector);
        match events.last() {
            IngestorEvent::Deliver(message) => {
                if message.0 == connector {
                    assert(own.push(events.last()).drop_last() =~= own);
                    if !before.run(front).stopped {
                        assert(before.accepted(front).push(message).drop_last()
                            =~= before.accepted(front));
                    }
                } else {
                    if !before.run(front).stopped {
                        assert(before.accepted(front).push(message).drop_last()
                            =~= before.accepted(front));
                    }
                }
            },
            IngestorEvent::Stop => {
                assert(own.push(events.last()).drop_last() =~= own);
            },
        }
    }
}

/// `parking_lot::RawRwLock`, the lock word of parking_lot's reader-writer
/// lock. Nothing is known of a value of it.
#[verifier::external_type_specification]
#[verifier::external_body]
pub struct ExRawRwLock(RawRwLock);

/// `lock_api::RwLock`, the reader-writer lock that `parking_lot::RwLock` is an
/// alias of. What it guards cannot be seen without taking the lock.
#[verifier::external_type_specification]
#[verifier::external_body]
#[verifier::reject_recursive_types(R)]
#[verifier::reject_recursive_types(T)]
pub struct ExRwLock<R, T: ?Sized>(RwLock<R, T>);

/// An ingestor shared between connectors, behind a read/write lock.
pub type SharedIngestor = Arc<RwLock<RawRwLock, Ingestor>>;

/// Exclusive access to a shared ingestor: the guard that
/// `lock_api::RwLock::write` returns. The lock is released when the value is
/// dropped.
#[verifier::external_body]
pub(crate) struct IngestorWriteGuard<'a> {
    guard: RwLockWriteGuard<'a, RawRwLock, Ingestor>,
}

/// Calls `lock_api::RwLock::write`: blocks until no other reader or writer
/// holds the lock, then returns the guard. Other threads may have changed the
/// ingestor in the meantime, so nothing is claimed about what it holds. The
/// calling thread must not hold the lock already; the library never does,
/// because it drops every guard before it returns.
#[verifier::external_body]
pub(crate) fn write_lock<'a>(shared: &'a RwLock<RawRwLock, Ingestor>) -> (guard:
    IngestorWriteGuard<'a>) {
    IngestorWriteGuard { guard: shared.write() }
}

/// Calls `DerefMut::deref_mut` of `lock_api::RwLockWriteGuard`: the ingestor
/// that the guard protects, for as long as the guard is borrowed. Nothing is
/// claimed about what it holds.
#[verifier::external_body]
pub(crate) fn locked_ingestor<'a, 'b>(guard: &'a mut IngestorWriteGuard<'b>) -> (ingestor:
    &'a mut Ingestor) {
    &mut *guard.guard
}

} // verus!
