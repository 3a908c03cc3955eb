//! Plain request and response shapes for the message endpoints; the
//! transport layer parses requests into these and serializes the responses.

use vstd::prelude::*;

verus! {

/// One message to publish: a caller-supplied identifier and a payload.
#[derive(Debug)]
pub struct NewMessage {
    pub message_id: String,
    pub content: String,
}

/// A request to publish a batch of messages on one queue.
#[derive(Debug)]
pub struct NewMessageRequest {
    pub messages: Vec<NewMessage>,
    pub queue_id: String,
}

/// A request to consume from one queue.
#[derive(Debug)]
pub struct GetMessageRequest {
    pub queue_id: String,
}

/// One dispatched message as handed back to a consumer.
#[derive(Debug)]
pub struct GetMessageResponse {
    pub message_id: String,
    pub content: String,
    pub uuid: String,
}

impl GetMessageResponse {
    pub fn new(message_id: String, content: String, uuid: String) -> (r: GetMessageResponse)
        ensures
            r.message_id == message_id,
            r.content == content,
            r.uuid == uuid,
    {
        GetMessageResponse { message_id, content, uuid }
    }
}

/// A request to remove one in-flight message from one queue.
#[derive(Debug)]
pub struct DeleteMessageRequest {
    pub queue_id: String,
    pub message_uuid: String,
}

} // verus!
