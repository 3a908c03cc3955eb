//! Plain request shapes for the queue endpoints, and the failure marker of
//! the optional at-rest encryption of payloads.

use vstd::prelude::*;

verus! {

/// A request to create a queue with the given read (visibility) timeout.
#[derive(Debug)]
pub struct NewQueueRequest {
    pub read_timeout: u32,
    pub queue_id: String,
}

/// Encrypting or decrypting a payload failed; the engine never sees such a
/// payload, so the error carries nothing.
#[derive(Debug)]
pub struct EncryptionError;

} // verus!
