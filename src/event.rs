//! Inbound events as the pipeline sees them, and their classification.
use vstd::prelude::*;

verus! {

/// Kind of a plain text note.
pub const KIND_TEXT_NOTE: u16 = 1;

/// Kind of a follow list.
pub const KIND_CONTACT_LIST: u16 = 3;

/// Kind of a direct message encrypted with a shared secret.
pub const KIND_ENCRYPTED_DIRECT_MESSAGE: u16 = 4;

/// Kind of a sealed private direct message.
pub const KIND_PRIVATE_DIRECT_MESSAGE: u16 = 14;

/// Kind of the service request this agent answers.
pub const KIND_SERVICE_REQUEST: u16 = 5300;

/// Kind of the reply sent for a service request.
pub const KIND_SERVICE_RESULT: u16 = 6300;

/// Kind of the one-time announcement of the service.
pub const KIND_SERVICE_ANNOUNCEMENT: u16 = 31990;

/// An event received from the network, reduced to the values the pipeline reads.
pub struct Event {
    /// Content-addressed identifier.
    pub id: [u8; 32],
    /// Public key of the author.
    pub author: [u8; 32],
    /// Category discriminator.
    pub kind: u16,
    /// Creation time, in seconds.
    pub created_at: u64,
    /// Opaque payload.
    pub content: String,
}

/// The closed set of routes an inbound event can take.
#[derive(Clone, Copy, Debug, PartialEq, Eq, Structural)]
pub enum Category {
    Note,
    ServiceRequest,
    DirectMessage,
    Other,
}

/// The category that a kind discriminator selects.
pub open spec fn category_of(kind: u16) -> Category {
    if kind == KIND_TEXT_NOTE {
        Category::Note
    } else if kind == KIND_SERVICE_REQUEST {
        Category::ServiceRequest
    } else if kind == KIND_PRIVATE_DIRECT_MESSAGE || kind == KIND_ENCRYPTED_DIRECT_MESSAGE {
        Category::DirectMessage
    } else {
        Category::Other
    }
}

/// Routes an event by its kind; every kind not listed is `Other`.
pub fn classify(event: &Event) -> (r: Category)
    ensures
        r == category_of(event.kind),
{
    if event.kind == KIND_TEXT_NOTE {
        Category::Note
    } else if event.kind == KIND_SERVICE_REQUEST {
        Category::ServiceRequest
    } else if event.kind == KIND_PRIVATE_DIRECT_MESSAGE
        || event.kind == KIND_ENCRYPTED_DIRECT_MESSAGE {
        Category::DirectMessage
    } else {
        Category::Other
    }
}

} // verus!
