//! Mailbox router: extracts in-domain recipients from message headers, keeps an
//! allow/block policy keyed by local-part, and decides which messages to delete.

pub mod address;
pub mod policy;
pub mod processor;
pub mod pipeline;
pub mod laws;
