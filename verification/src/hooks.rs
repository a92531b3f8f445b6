//! Wire-level vocabulary of the delivery-hook protocol: what is sent to a
//! hook endpoint and what it may answer.

use vstd::prelude::*;

verus! {

/// An envelope address.
#[derive(Debug, Clone)]
pub struct Address {
    pub address: String,
}

/// Sender and recipient of the SMTP transaction.
#[derive(Debug, Clone)]
pub struct Envelope {
    pub from: Address,
    pub to: Address,
}

/// The message as shown to a hook.
#[derive(Debug, Clone)]
pub struct Message {
    /// Parsed headers, in message order, as `(name, raw value)`.
    pub headers: Vec<(String, String)>,
    /// Headers added by the server; left off the wire when empty.
    pub server_headers: Vec<(String, String)>,
    /// The raw message, decoded as UTF-8 with replacement characters.
    pub contents: String,
    /// Length of the raw message in bytes.
    pub size: usize,
}

/// One request to a hook endpoint, built once per recipient.
#[derive(Debug, Clone)]
pub struct Request {
    pub user_id: String,
    pub principal_name: String,
    pub envelope: Option<Envelope>,
    pub message: Option<Message>,
}

/// Verdict of a hook.
#[derive(Debug, Clone, Copy, PartialEq, Eq, Structural)]
pub enum Action {
    Accept,
    Discard,
    Quarantine,
    Reject,
}

/// One change that a hook asks for.
#[derive(Debug, Clone)]
pub enum Modification {
    FileInto {
        folder: String,
        mailbox_id: String,
        special_use: Option<String>,
        create: bool,
        flags: Vec<String>,
    },
    AddHeader { name: String, value: String },
    ReplaceHeader { index: u32, name: String, value: String },
}

/// A change to the headers of a message, as it is handed on for rewriting.
#[derive(Debug, Clone)]
pub enum HeaderModification {
    AddHeader { name: String, value: String },
    ReplaceHeader { index: u32, name: String, value: String },
}

/// Answer of a hook endpoint.
#[derive(Debug, Clone)]
pub struct Response {
    pub action: Action,
    pub modifications: Vec<Modification>,
    pub flags: Vec<String>,
    pub skip_inbox: bool,
}

impl Request {
    /// A request that names the account only.
    pub fn new(user_id: String, principal_name: String) -> (r: Self)
        ensures
            r.user_id == user_id,
            r.principal_name == principal_name,
            r.envelope is None,
            r.message is None,
    {
        Self { user_id, principal_name, envelope: None, message: None }
    }

    /// The same request with `envelope` set.
    pub fn with_envelope(self, envelope: Envelope) -> (r: Self)
        ensures
            r.user_id == self.user_id,
            r.principal_name == self.principal_name,
            r.envelope == Some(envelope),
            r.message == self.message,
    {
        let mut this = self;
        this.envelope = Some(envelope);
        this
    }

    /// The same request with `message` set.
    pub fn with_message(self, message: Message) -> (r: Self)
        ensures
            r.user_id == self.user_id,
            r.principal_name == self.principal_name,
            r.envelope == self.envelope,
            r.message == Some(message),
    {
        let mut this = self;
        this.message = Some(message);
        this
    }
}

} // verus!
