use local_delivery::delivery::{
    AutogeneratedMessage, DeliveryError, IngestedEmail, LocalDeliveryStatus,
};
use local_delivery::engine::{
    deliver_message, AccountLookup, BlobLookup, DeliveryEvent, DeliveryStep,
};

fn stored(document_id: u64, change_id: u64) -> IngestedEmail {
    IngestedEmail {
        document_id,
        thread_id: 1,
        change_id,
        blob_id: vec![1, 2, 3],
        size: 10,
        imap_uids: vec![(0, 1)],
    }
}

fn delivered(outcome: Result<IngestedEmail, DeliveryError>) -> DeliveryEvent {
    DeliveryEvent::Delivered { outcome, autogenerated: vec![] }
}

fn temporary(reason: &str) -> LocalDeliveryStatus {
    LocalDeliveryStatus::TemporaryFailure { reason: reason.to_string() }
}

#[test]
fn two_recipients_same_account_are_delivered_once() {
    let (mut delivery, step) = deliver_message(2, BlobLookup::Found);
    assert_eq!(step, DeliveryStep::Resolve { recipient: 0 });
    let step = delivery.advance(DeliveryEvent::Account(AccountLookup::Found(7)));
    assert_eq!(step, DeliveryStep::Deliver { recipient: 0, account_id: 7 });
    let step = delivery.advance(delivered(Ok(stored(5, 9))));
    assert_eq!(step, DeliveryStep::Notify { account_id: 7, document_id: 5, change_id: 9 });
    let step = delivery.advance(DeliveryEvent::Notified);
    assert_eq!(step, DeliveryStep::Resolve { recipient: 1 });
    // the alias resolves to the same account: no second delivery
    let step = delivery.advance(DeliveryEvent::Account(AccountLookup::Found(7)));
    assert_eq!(step, DeliveryStep::Finished);
    let result = delivery.into_result();
    assert_eq!(
        result.status,
        vec![LocalDeliveryStatus::Success, LocalDeliveryStatus::Success]
    );
    assert_eq!(result.status[0], result.status[1]);
    assert!(result.autogenerated.is_empty());
}

#[test]
fn same_account_repeats_a_failure_too() {
    let (mut delivery, _) = deliver_message(3, BlobLookup::Found);
    delivery.advance(DeliveryEvent::Account(AccountLookup::Found(1)));
    let step = delivery.advance(delivered(Err(DeliveryError::Quota)));
    assert_eq!(step, DeliveryStep::Resolve { recipient: 1 });
    let step = delivery.advance(DeliveryEvent::Account(AccountLookup::Found(2)));
    assert_eq!(step, DeliveryStep::Deliver { recipient: 1, account_id: 2 });
    let step = delivery.advance(delivered(Ok(stored(1, u64::MAX))));
    // nothing was stored: nobody is told
    assert_eq!(step, DeliveryStep::Resolve { recipient: 2 });
    let step = delivery.advance(DeliveryEvent::Account(AccountLookup::Found(1)));
    assert_eq!(step, DeliveryStep::Finished);
    let result = delivery.into_result();
    assert_eq!(
        result.status,
        vec![
            temporary("Mailbox over quota."),
            LocalDeliveryStatus::Success,
            temporary("Mailbox over quota."),
        ]
    );
}

#[test]
fn blob_missing_fails_every_recipient_for_now() {
    let (delivery, step) = deliver_message(3, BlobLookup::NotFound);
    assert_eq!(step, DeliveryStep::Finished);
    let result = delivery.into_result();
    assert_eq!(
        result.status,
        vec![
            temporary("Blob not found."),
            temporary("Blob not found."),
            temporary("Blob not found."),
        ]
    );
    assert!(result.autogenerated.is_empty());
}

#[test]
fn blob_read_error_fails_every_recipient_for_now() {
    let (delivery, step) = deliver_message(2, BlobLookup::Failed);
    assert_eq!(step, DeliveryStep::Finished);
    assert_eq!(
        delivery.into_result().status,
        vec![temporary("Temporary I/O error."), temporary("Temporary I/O error.")]
    );
}

#[test]
fn unknown_and_unresolvable_addresses_get_their_status() {
    let (mut delivery, _) = deliver_message(2, BlobLookup::Found);
    let step = delivery.advance(DeliveryEvent::Account(AccountLookup::NotFound));
    assert_eq!(step, DeliveryStep::Resolve { recipient: 1 });
    let step = delivery.advance(DeliveryEvent::Account(AccountLookup::Failed));
    assert_eq!(step, DeliveryStep::Finished);
    assert_eq!(
        delivery.into_result().status,
        vec![
            LocalDeliveryStatus::PermanentFailure {
                code: [5, 5, 0],
                reason: "Mailbox not found.".to_string()
            },
            temporary("Address lookup failed."),
        ]
    );
}

#[test]
fn no_recipients_is_finished_at_once() {
    let (delivery, step) = deliver_message(0, BlobLookup::Found);
    assert_eq!(step, DeliveryStep::Finished);
    assert!(delivery.into_result().status.is_empty());
}

#[test]
fn one_status_per_recipient_in_order() {
    let (mut delivery, mut step) = deliver_message(4, BlobLookup::Found);
    let accounts = [AccountLookup::Found(3), AccountLookup::NotFound, AccountLookup::Found(4), AccountLookup::Found(3)];
    let mut asked = vec![];
    loop {
        step = match step {
            DeliveryStep::Resolve { recipient } => {
                asked.push(recipient);
                assert_eq!(delivery.pending(), step);
                delivery.advance(DeliveryEvent::Account(accounts[recipient]))
            }
            DeliveryStep::Deliver { account_id, .. } => {
                if account_id == 3 {
                    delivery.advance(delivered(Err(DeliveryError::Unauthorized)))
                } else {
                    delivery.advance(delivered(Ok(stored(8, 2))))
                }
            }
            DeliveryStep::Notify { .. } => delivery.advance(DeliveryEvent::Notified),
            DeliveryStep::Finished => break,
        };
    }
    assert_eq!(asked, vec![0, 1, 2, 3]);
    let unauthorized = LocalDeliveryStatus::PermanentFailure {
        code: [5, 5, 0],
        reason: "This account is not authorized to receive email.".to_string(),
    };
    assert_eq!(
        delivery.into_result().status,
        vec![
            unauthorized.clone(),
            LocalDeliveryStatus::PermanentFailure {
                code: [5, 5, 0],
                reason: "Mailbox not found.".to_string()
            },
            LocalDeliveryStatus::Success,
            unauthorized,
        ]
    );
}

#[test]
fn an_event_that_answers_nothing_changes_nothing() {
    let (mut delivery, _) = deliver_message(1, BlobLookup::Found);
    let step = delivery.advance(DeliveryEvent::Notified);
    assert_eq!(step, DeliveryStep::Resolve { recipient: 0 });
    let step = delivery.advance(delivered(Ok(stored(1, 1))));
    assert_eq!(step, DeliveryStep::Resolve { recipient: 0 });
    let step = delivery.advance(DeliveryEvent::Account(AccountLookup::Found(1)));
    assert_eq!(step, DeliveryStep::Deliver { recipient: 0, account_id: 1 });
    let step = delivery.advance(DeliveryEvent::Account(AccountLookup::Found(2)));
    assert_eq!(step, DeliveryStep::Deliver { recipient: 0, account_id: 1 });
    assert_eq!(delivery.pending(), step);
}

#[test]
fn autogenerated_messages_are_collected_in_order() {
    let note = |text: &str| AutogeneratedMessage {
        sender_address: "".to_string(),
        recipients: vec!["x@y".to_string()],
        message: text.as_bytes().to_vec(),
    };
    let (mut delivery, _) = deliver_message(2, BlobLookup::Found);
    delivery.advance(DeliveryEvent::Account(AccountLookup::Found(1)));
    delivery.advance(DeliveryEvent::Delivered {
        outcome: Err(DeliveryError::TenantQuota),
        autogenerated: vec![note("a"), note("b")],
    });
    delivery.advance(DeliveryEvent::Account(AccountLookup::Found(2)));
    delivery.advance(DeliveryEvent::Delivered {
        outcome: Err(DeliveryError::Other { details: "x".to_string() }),
        autogenerated: vec![note("c")],
    });
    let result = delivery.into_result();
    let texts: Vec<&[u8]> = result.autogenerated.iter().map(|m| &m.message[..]).collect();
    assert_eq!(texts, vec![&b"a"[..], &b"b"[..], &b"c"[..]]);
    assert_eq!(
        result.status,
        vec![temporary("Organization over quota."), temporary("Transient server failure.")]
    );
}
