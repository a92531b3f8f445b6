//! Delivery of one message to all of its recipients, one after the other.
//!
//! The work that needs the directory, the store or the change bus is not
//! done here. [`MessageDelivery`] decides what is to be done next and takes
//! in what came of it: it is advanced with the answer to the step that it
//! asked for last, and asks for the next one, until it is finished.

use std::collections::HashMap;
use vstd::prelude::*;
use vstd::std_specs::hash::group_hash_axioms;
use crate::delivery::{
    classify_error, status_of_error, statuses_view, AutogeneratedMessage, DeliveryError,
    ErrorView, IngestedEmail, LocalDeliveryResult, LocalDeliveryStatus, StatusView,
};

verus! {

broadcast use group_hash_axioms;

/// What the blob store said of the staged message.
#[derive(Debug, Clone, Copy, PartialEq, Eq, Structural)]
pub enum BlobLookup {
    Found,
    NotFound,
    Failed,
}

/// What the directory said of a recipient's address.
#[derive(Debug, Clone, Copy, PartialEq, Eq, Structural)]
pub enum AccountLookup {
    Found(u32),
    NotFound,
    Failed,
}

/// The step that a delivery asks for.
#[derive(Debug, Clone, Copy, PartialEq, Eq, Structural)]
pub enum DeliveryStep {
    /// Resolve the address of this recipient to an account.
    Resolve { recipient: usize },
    /// Deliver the message to this recipient, who has this account.
    Deliver { recipient: usize, account_id: u32 },
    /// Tell the clients of this account that a message came in.
    Notify { account_id: u32, document_id: u64, change_id: u64 },
    /// Nothing is left to do.
    Finished,
}

/// The answer to a step.
#[derive(Debug)]
pub enum DeliveryEvent {
    /// Answers `Resolve`.
    Account(AccountLookup),
    /// Answers `Deliver`, with the messages that the filter script made.
    Delivered { outcome: Result<IngestedEmail, DeliveryError>, autogenerated: Vec<AutogeneratedMessage> },
    /// Answers `Notify`.
    Notified,
}

/// A delivery as contracts see it.
pub struct DeliveryView {
    /// Number of recipients.
    pub recipients: nat,
    /// Status of each recipient dealt with so far, in recipient order.
    pub status: Seq<StatusView>,
    /// The account of each of those recipients, where the directory knew
    /// one.
    pub account_of: Seq<Option<u32>>,
    /// For each account met so far, the first recipient that had it.
    pub first_seen: Map<u32, usize>,
    /// The step asked for and not yet answered.
    pub pending: DeliveryStep,
    /// Messages that the filter scripts made, in the order they came.
    pub autogenerated: Seq<AutogeneratedMessage>,
}

/// The status of a recipient whose address the directory does not know.
pub open spec fn mailbox_not_found() -> StatusView {
    StatusView::PermanentFailure { code: seq![5u8, 5u8, 0u8], reason: "Mailbox not found."@ }
}

/// The status of a recipient whose address could not be looked up.
pub open spec fn lookup_failed() -> StatusView {
    StatusView::TemporaryFailure { reason: "Address lookup failed."@ }
}

/// The status of every recipient where the staged message could not be
/// read.
pub open spec fn blob_failure(blob: BlobLookup) -> StatusView {
    if blob == BlobLookup::NotFound {
        StatusView::TemporaryFailure { reason: "Blob not found."@ }
    } else {
        StatusView::TemporaryFailure { reason: "Temporary I/O error."@ }
    }
}

/// What is asked for once every recipient so far has its status: the next
/// recipient's account, or nothing.
pub open spec fn step_after(recipients: nat, done: nat) -> DeliveryStep {
    if done < recipients {
        DeliveryStep::Resolve { recipient: done as usize }
    } else {
        DeliveryStep::Finished
    }
}

/// `view` with the status of one more recipient, and the step that follows.
pub open spec fn settled(view: DeliveryView, status: StatusView, account: Option<u32>) -> DeliveryView {
    DeliveryView {
        status: view.status.push(status),
        account_of: view.account_of.push(account),
        pending: step_after(view.recipients, view.status.len() + 1),
        ..view
    }
}

/// The delivery at its start. Where the staged message cannot be read,
/// every recipient fails for the time being and nothing is left to do.
pub open spec fn started(recipients: usize, blob: BlobLookup) -> DeliveryView {
    if blob == BlobLookup::Found {
        DeliveryView {
            recipients: recipients as nat,
            status: Seq::empty(),
            account_of: Seq::empty(),
            first_seen: Map::empty(),
            pending: step_after(recipients as nat, 0),
            autogenerated: Seq::empty(),
        }
    } else {
        DeliveryView {
            recipients: recipients as nat,
            status: Seq::new(recipients as nat, |i: int| blob_failure(blob)),
            account_of: Seq::new(recipients as nat, |i: int| None),
            first_seen: Map::empty(),
            pending: DeliveryStep::Finished,
            autogenerated: Seq::empty(),
        }
    }
}

/// A delivery event as contracts see it.
pub enum EventView {
    Account(AccountLookup),
    Delivered { outcome: Result<IngestedEmail, ErrorView>, autogenerated: Seq<AutogeneratedMessage> },
    Notified,
}

impl View for DeliveryEvent {
    type V = EventView;

    open spec fn view(&self) -> EventView {
        match *self {
            DeliveryEvent::Account(lookup) => EventView::Account(lookup),
            DeliveryEvent::Delivered { outcome, autogenerated } => EventView::Delivered {
                outcome: match outcome {
                    Ok(email) => Ok(email),
                    Err(error) => Err(error@),
                },
                autogenerated: autogenerated@,
            },
            DeliveryEvent::Notified => EventView::Notified,
        }
    }
}

/// The delivery after `event`.
///
/// An account that was met before gets the status of the recipient that
/// had it first, and the message is not delivered to it again. An event
/// that does not answer the pending step changes nothing, and the step is
/// asked for again.
pub open spec fn advanced(view: DeliveryView, event: EventView) -> DeliveryView {
    match (view.pending, event) {
        (DeliveryStep::Resolve { recipient }, EventView::Account(lookup)) => match lookup {
            AccountLookup::NotFound => settled(view, mailbox_not_found(), None),
            AccountLookup::Failed => settled(view, lookup_failed(), None),
            AccountLookup::Found(account_id) => {
                if view.first_seen.contains_key(account_id) && view.first_seen[account_id]
                    < view.status.len() {
                    settled(view, view.status[view.first_seen[account_id] as int], Some(account_id))
                } else {
                    DeliveryView {
                        first_seen: view.first_seen.insert(account_id, recipient),
                        pending: DeliveryStep::Deliver { recipient, account_id },
                        ..view
                    }
                }
            },
        },
        (
            DeliveryStep::Deliver { recipient, account_id },
            EventView::Delivered { outcome, autogenerated },
        ) => {
            let with_messages = DeliveryView {
                autogenerated: view.autogenerated + autogenerated,
                ..view
            };
            match outcome {
                Ok(email) => {
                    let after = settled(with_messages, StatusView::Success, Some(account_id));
                    if email.change_id != u64::MAX {
                        DeliveryView {
                            pending: DeliveryStep::Notify {
                                account_id,
                                document_id: email.document_id,
                                change_id: email.change_id,
                            },
                            ..after
                        }
                    } else {
                        after
                    }
                },
                Err(error) => settled(with_messages, status_of_error(error), Some(account_id)),
            }
        },
        (DeliveryStep::Notify { .. }, EventView::Notified) => DeliveryView {
            pending: step_after(view.recipients, view.status.len()),
            ..view
        },
        _ => view,
    }
}

/// What holds of a delivery at every moment.
pub open spec fn consistent(view: DeliveryView) -> bool {
    &&& view.recipients <= usize::MAX
    &&& view.status.len() == view.account_of.len()
    &&& view.status.len() <= view.recipients
    &&& match view.pending {
        DeliveryStep::Resolve { recipient } => recipient == view.status.len() && recipient
            < view.recipients,
        DeliveryStep::Deliver { recipient, account_id } => {
            &&& recipient == view.status.len()
            &&& recipient < view.recipients
            &&& view.first_seen.contains_key(account_id)
            &&& view.first_seen[account_id] == recipient
        },
        DeliveryStep::Notify { .. } => true,
        DeliveryStep::Finished => view.status.len() == view.recipients,
    }
    &&& forall|account_id: u32| #[trigger]
        view.first_seen.contains_key(account_id) ==> {
            let first = view.first_seen[account_id];
            if first < view.status.len() {
                view.account_of[first as int] == Some(account_id)
            } else {
                view.pending == (DeliveryStep::Deliver { recipient: first, account_id })
            }
        }
    &&& forall|i: int|
        0 <= i < view.status.len() && (#[trigger] view.account_of[i]) is Some ==> {
            let account_id = view.account_of[i].unwrap();
            &&& view.first_seen.contains_key(account_id)
            &&& view.first_seen[account_id] <= i
            &&& view.status[i] == view.status[view.first_seen[account_id] as int]
        }
}

/// A delivery stays consistent from its start and across every event.
pub proof fn lemma_consistent(view: DeliveryView, event: EventView)
    requires
        consistent(view),
    ensures
        consistent(advanced(view, event)),
{
    let after = advanced(view, event);
    match (view.pending, event) {
        (DeliveryStep::Resolve { recipient }, EventView::Account(lookup)) => {
            match lookup {
                AccountLookup::Found(account_id) => {
                    if view.first_seen.contains_key(account_id) && view.first_seen[account_id]
                        < view.status.len() {
                        let first = view.first_seen[account_id] as int;
                        assert(view.account_of[first] == Some(account_id));
                    } else {
                        assert forall|other: u32| #[trigger]
                            after.first_seen.contains_key(other) implies {
                            let first = after.first_seen[other];
                            if first < after.status.len() {
                                after.account_of[first as int] == Some(other)
                            } else {
                                after.pending == (DeliveryStep::Deliver {
                                    recipient: first,
                                    account_id: other,
                                })
                            }
                        } by {
                            if other != account_id {
                                assert(view.first_seen.contains_key(other));
                            }
                        }
                    }
                },
                _ => {},
            }
        },
        (DeliveryStep::Deliver { recipient, account_id }, EventView::Delivered { outcome, .. }) => {
            assert forall|other: u32| #[trigger] after.first_seen.contains_key(other) implies {
                let first = after.first_seen[other];
                if first < after.status.len() {
                    after.account_of[first as int] == Some(other)
                } else {
                    after.pending == (DeliveryStep::Deliver { recipient: first, account_id: other })
                }
            } by {
                assert(view.first_seen.contains_key(other));
            }
        },
        _ => {},
    }
}

/// Statuses are given in recipient order and stay as they are: an event
/// adds at most one status, at the end of the list; the address that is
/// resolved next is that of the first recipient without a status; and the
/// delivery is finished only when every recipient has one.
pub proof fn lemma_status_per_recipient(view: DeliveryView, event: EventView)
    requires
        consistent(view),
    ensures
        ({
            let after = advanced(view, event);
            &&& after.recipients == view.recipients
            &&& view.status.len() <= after.status.len() <= view.status.len() + 1
            &&& after.status.take(view.status.len() as int) == view.status
            &&& after.pending matches DeliveryStep::Resolve { recipient } ==> recipient
                == after.status.len()
            &&& after.pending matches DeliveryStep::Deliver { recipient, .. } ==> recipient
                == after.status.len()
            &&& after.pending == DeliveryStep::Finished ==> after.status.len() == after.recipients
        }),
{
    lemma_consistent(view, event);
    let after = advanced(view, event);
    assert(after.status.take(view.status.len() as int) =~= view.status);
}

/// Two recipients with the same account have the same status.
pub proof fn lemma_same_account_same_status(view: DeliveryView, i: int, j: int)
    requires
        consistent(view),
        0 <= i < view.status.len(),
        0 <= j < view.status.len(),
        view.account_of[i] is Some,
        view.account_of[i] == view.account_of[j],
    ensures
        view.status[i] == view.status[j],
{
}

/// The delivery of one message to its recipients.
pub struct MessageDelivery {
    recipients: usize,
    status: Vec<LocalDeliveryStatus>,
    autogenerated: Vec<AutogeneratedMessage>,
    first_seen: HashMap<u32, usize>,
    pending: DeliveryStep,
    account_of: Ghost<Seq<Option<u32>>>,
}

impl View for MessageDelivery {
    type V = DeliveryView;

    closed spec fn view(&self) -> DeliveryView {
        DeliveryView {
            recipients: self.recipients as nat,
            status: statuses_view(self.status@),
            account_of: self.account_of@,
            first_seen: self.first_seen@,
            pending: self.pending,
            autogenerated: self.autogenerated@,
        }
    }
}

/// Begins the delivery of a message to `recipients` recipients, given what
/// the blob store said of the staged message, and says what to do first.
pub fn deliver_message(recipients: usize, blob: BlobLookup) -> (begun: (MessageDelivery, DeliveryStep))
    ensures
        begun.0@ == started(recipients, blob),
        begun.1 == begun.0@.pending,
        consistent(begun.0@),
{
    let mut status: Vec<LocalDeliveryStatus> = Vec::new();
    let mut pending = DeliveryStep::Finished;
    let ghost mut account_of: Seq<Option<u32>> = Seq::empty();
    match blob {
        BlobLookup::Found => {
            if recipients > 0 {
                pending = DeliveryStep::Resolve { recipient: 0 };
            }
        },
        _ => {
            let mut i: usize = 0;
            while i < recipients
                invariant
                    i <= recipients,
                    blob != BlobLookup::Found,
                status@.len() == i,
                    forall|k: int| 0 <= k < i ==> (#[trigger] status@[k])@ == blob_failure(blob),
                decreases recipients - i,
            {
                let reason = match blob {
                    BlobLookup::NotFound => "Blob not found.".to_owned(),
                    _ => "Temporary I/O error.".to_owned(),
                };
                status.push(LocalDeliveryStatus::TemporaryFailure { reason });
                i += 1;
            }
            proof {
                account_of = Seq::new(recipients as nat, |i: int| None);
            }
        },
    }
    let delivery = MessageDelivery {
        recipients,
        status,
        autogenerated: Vec::new(),
        first_seen: HashMap::new(),
        pending,
        account_of: Ghost(account_of),
    };
    assert(delivery@.status =~= started(recipients, blob).status);
    assert(delivery@.first_seen =~= started(recipients, blob).first_seen);
    (delivery, pending)
}

impl MessageDelivery {
    /// The step asked for and not yet answered.
    pub fn pending(&self) -> (step: DeliveryStep)
        ensures
            step == self@.pending,
    {
        self.pending
    }

    /// Gives one more recipient its status and asks for what follows.
    fn settle(&mut self, status: LocalDeliveryStatus, account: Ghost<Option<u32>>)
        ensures
            final(self)@ == settled(old(self)@, status@, account@),
    {
        self.status.push(status);
        self.account_of = Ghost(self.account_of@.push(account@));
        self.pending = if self.status.len() < self.recipients {
            DeliveryStep::Resolve { recipient: self.status.len() }
        } else {
            DeliveryStep::Finished
        };
        assert(self@.status =~= old(self)@.status.push(status@));
    }

    /// Takes in the answer to the pending step and says what to do next.
    ///
    /// Every recipient gets exactly one status, in recipient order: the
    /// step `Resolve { recipient }` is asked when `recipient` statuses
    /// stand, and its answer, or the delivery it leads to, adds the next.
    pub fn advance(&mut self, event: DeliveryEvent) -> (step: DeliveryStep)
        ensures
            final(self)@ == advanced(old(self)@, event@),
            step == final(self)@.pending,
            consistent(old(self)@) ==> consistent(final(self)@),
            consistent(old(self)@) && step == DeliveryStep::Finished ==> final(self)@.status.len()
                == final(self)@.recipients,
    {
        proof {
            if consistent(self@) {
                lemma_consistent(self@, event@);
            }
        }
        match (self.pending, event) {
            (DeliveryStep::Resolve { recipient }, DeliveryEvent::Account(lookup)) => {
                match lookup {
                    AccountLookup::NotFound => {
                        let code = [5u8, 5u8, 0u8];
                        assert(code@ =~= seq![5u8, 5u8, 0u8]);
                        self.settle(
                            LocalDeliveryStatus::PermanentFailure {
                                code,
                                reason: "Mailbox not found.".to_owned(),
                            },
                            Ghost(None),
                        );
                    },
                    AccountLookup::Failed => {
                        self.settle(
                            LocalDeliveryStatus::TemporaryFailure {
                                reason: "Address lookup failed.".to_owned(),
                            },
                            Ghost(None),
                        );
                    },
                    AccountLookup::Found(account_id) => {
                        let first = match self.first_seen.get(&account_id) {
                            Some(position) => Some(*position),
                            None => None,
                        };
                        match first {
                            Some(position) if position < self.status.len() => {
                                let copy = self.status[position].clone();
                                self.settle(copy, Ghost(Some(account_id)));
                            },
                            _ => {
                                self.first_seen.insert(account_id, recipient);
                                self.pending = DeliveryStep::Deliver { recipient, account_id };
                            },
                        }
                    },
                }
            },
            (
                DeliveryStep::Deliver { recipient, account_id },
                DeliveryEvent::Delivered { outcome, autogenerated },
            ) => {
                let mut messages = autogenerated;
                self.autogenerated.append(&mut messages);
                match outcome {
                    Ok(email) => {
                        self.settle(LocalDeliveryStatus::Success, Ghost(Some(account_id)));
                        if email.was_ingested() {
                            self.pending = DeliveryStep::Notify {
                                account_id,
                                document_id: email.document_id,
                                change_id: email.change_id,
                            };
                        }
                    },
                    Err(error) => {
                        let status = classify_error(&error);
                        self.settle(status, Ghost(Some(account_id)));
                    },
                }
            },
            (DeliveryStep::Notify { .. }, DeliveryEvent::Notified) => {
                self.pending = if self.status.len() < self.recipients {
                    DeliveryStep::Resolve { recipient: self.status.len() }
                } else {
                    DeliveryStep::Finished
                };
            },
            _ => {},
        }
        self.pending
    }

    /// The statuses given so far, and the messages that filter scripts
    /// made. Once the delivery is finished there is one status for each
    /// recipient.
    pub fn into_result(self) -> (result: LocalDeliveryResult)
        ensures
            statuses_view(result.status@) == self@.status,
            result.autogenerated@ == self@.autogenerated,
    {
        LocalDeliveryResult { status: self.status, autogenerated: self.autogenerated }
    }
}

} // verus!
