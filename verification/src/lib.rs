//! Local delivery of mail: what happens to a message between its acceptance
//! over SMTP and its storage in the mailboxes of its recipients.
//!
//! The library decides; it does not reach out. The status of each recipient,
//! the verdict of the delivery hooks, the mailboxes and keywords of each
//! stored copy and the bytes of its headers are computed here. The blob
//! store, the directory, the filter scripts, the HTTP client and the message
//! store are asked for by the step that each state machine returns.

pub mod bytes;
pub mod client;
pub mod delivery;
pub mod delivery_hooks;
pub mod engine;
pub mod hook_config;
pub mod hooks;
pub mod keyword;
pub mod mailbox;
pub mod parser;
pub mod recipient;
pub mod rewrite;
pub mod rewrite_laws;
pub mod text;
