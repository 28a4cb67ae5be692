//! The event-intake pipeline of a request/response agent on a public event
//! network: a bounded, deduplicated, time-ordered history of notes, a
//! classifier for inbound events, a dispatcher that routes them, and the
//! reply built for each service request.
pub mod dispatch;
pub mod event;
pub mod history;
pub mod ident;
pub mod publish;
pub mod reply;
