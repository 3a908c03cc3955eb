//! The control-plane event vocabulary and the typed failure reasons shared by
//! the queue engine.

use vstd::prelude::*;
use vstd::string::StringExecFns;

verus! {

/// A durable record of a queue lifecycle change, distinct from message data.
/// The event log is the source of truth for which queues exist; it is replayed
/// in file order on startup.
#[derive(Debug)]
pub enum RQSEvent {
    QueueCreated { queue_id: String, visibility_timeout: u32 },
    QueueDeleted { queue_id: String },
}

/// Mathematical model of a control-plane event.
pub ghost enum EventModel {
    Created { name: Seq<char>, visibility_timeout: int },
    Deleted { name: Seq<char> },
}

impl View for RQSEvent {
    type V = EventModel;

    open spec fn view(&self) -> EventModel {
        match self {
            RQSEvent::QueueCreated { queue_id, visibility_timeout } => EventModel::Created {
                name: queue_id@,
                visibility_timeout: *visibility_timeout as int,
            },
            RQSEvent::QueueDeleted { queue_id } => EventModel::Deleted { name: queue_id@ },
        }
    }
}

/// A typed failure reason. Domain errors are returned to the immediate caller
/// and never retried; a corrupt durability log is fatal at startup. Each
/// variant carries a human-readable reason string.
#[derive(Debug)]
pub enum RQSError {
    /// A queue with the requested name is already registered.
    QueueAlreadyExists(String),
    /// No queue with the requested name is registered.
    QueueNotFound(String),
    /// The message does not exist or is not currently held by a consumer.
    MessageNotFoundOrNotInFlight(String),
    /// A durability log line could not be understood; recovery must stop.
    CorruptLog(String),
}

impl RQSError {
    /// The human-readable reason carried by this error.
    pub fn message(&self) -> (r: &String)
        ensures
            r@ == self.message_view(),
    {
        match self {
            RQSError::QueueAlreadyExists(s) => s,
            RQSError::QueueNotFound(s) => s,
            RQSError::MessageNotFoundOrNotInFlight(s) => s,
            RQSError::CorruptLog(s) => s,
        }
    }

    /// The reason string of this error, as a sequence of characters.
    pub open spec fn message_view(&self) -> Seq<char> {
        match self {
            RQSError::QueueAlreadyExists(s) => s@,
            RQSError::QueueNotFound(s) => s@,
            RQSError::MessageNotFoundOrNotInFlight(s) => s@,
            RQSError::CorruptLog(s) => s@,
        }
    }
}

/// Reason string for a create of a name that is already registered.
pub open spec fn already_exists_msg(name: Seq<char>) -> Seq<char> {
    "Queue with name "@ + name + " already exists"@
}

/// Reason string for an operation on a name that is not registered.
pub open spec fn not_found_msg(name: Seq<char>) -> Seq<char> {
    "Queue with name "@ + name + " does not exist"@
}

/// Builds the reason string for `RQSError::QueueAlreadyExists`.
pub fn make_already_exists_msg(name: &String) -> (r: String)
    ensures
        r@ == already_exists_msg(name@),
{
    String::from_str("Queue with name ").concat(name.as_str()).concat(" already exists")
}

/// Builds the reason string for `RQSError::QueueNotFound`.
pub fn make_not_found_msg(name: &String) -> (r: String)
    ensures
        r@ == not_found_msg(name@),
{
    String::from_str("Queue with name ").concat(name.as_str()).concat(" does not exist")
}

} // verus!
