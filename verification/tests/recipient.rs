use local_delivery::delivery::{DeliveryError, HookOutcome, IngestedEmail};
use local_delivery::hooks::HeaderModification;
use local_delivery::keyword::Keyword;
use local_delivery::mailbox::{INBOX_ID, JUNK_ID};
use local_delivery::recipient::{
    deliver_to_recipient, AccessGrant, IngestRequest, RecipientDelivery, RecipientEvent,
    RecipientStep, ScriptRun, SieveOutput, SieveResult,
};

const RAW: &[u8] = b"Subject: Hi\r\n\r\nBody";

fn grant() -> AccessGrant {
    AccessGrant { can_spam_classify: true, spam_train: false }
}

fn stored(document_id: u64) -> IngestedEmail {
    IngestedEmail {
        document_id,
        thread_id: 2,
        change_id: 3,
        blob_id: vec![9],
        size: 20,
        imap_uids: vec![(0, 4)],
    }
}

fn no_changes() -> HookOutcome {
    HookOutcome { mailbox_ids: vec![], flags: vec![], skip_inbox: false, modifications: vec![] }
}

fn copy(raw: &[u8], mailbox_ids: Vec<u32>, changed: bool) -> SieveOutput {
    SieveOutput { raw: raw.to_vec(), mailbox_ids, keywords: vec![], changed, did_file_into: false }
}

fn begin(raw: &[u8]) -> RecipientDelivery {
    let (delivery, step) = deliver_to_recipient(raw.to_vec(), 1);
    assert!(matches!(step, RecipientStep::CheckAccess));
    delivery
}

fn after_script(raw: &[u8], run: ScriptRun) -> (RecipientDelivery, RecipientStep) {
    let mut delivery = begin(raw);
    let step = delivery.advance(RecipientEvent::Access(Ok(grant())));
    assert!(matches!(step, RecipientStep::RunScript));
    let step = delivery.advance(RecipientEvent::Script(Ok(run)));
    (delivery, step)
}

fn request_of(step: RecipientStep) -> IngestRequest {
    match step {
        RecipientStep::Ingest(request) => request,
        other => panic!("expected a request to store, got {:?}", other),
    }
}

fn result_of(delivery: RecipientDelivery) -> Result<IngestedEmail, DeliveryError> {
    delivery.into_result().expect("ended")
}

#[test]
fn access_failure_ends_the_delivery() {
    let mut delivery = begin(RAW);
    let step = delivery.advance(RecipientEvent::Access(Err(DeliveryError::Unauthorized)));
    assert!(matches!(step, RecipientStep::Done));
    assert_eq!(result_of(delivery), Err(DeliveryError::Unauthorized));
}

#[test]
fn unparseable_message_is_refused_with_550() {
    let mut delivery = begin(b"");
    let step = delivery.advance(RecipientEvent::Access(Ok(grant())));
    assert!(matches!(step, RecipientStep::Done));
    assert_eq!(
        result_of(delivery),
        Err(DeliveryError::MessageIngest {
            code: Some(550),
            reason: Some("Failed to parse e-mail message.".to_string())
        })
    );
}

#[test]
fn script_failure_ends_the_delivery() {
    let mut delivery = begin(RAW);
    delivery.advance(RecipientEvent::Access(Ok(grant())));
    let step = delivery.advance(RecipientEvent::Script(Err(DeliveryError::Other {
        details: "script store".to_string(),
    })));
    assert!(matches!(step, RecipientStep::Done));
    assert_eq!(
        result_of(delivery),
        Err(DeliveryError::Other { details: "script store".to_string() })
    );
}

#[test]
fn without_a_script_the_message_goes_to_the_inbox() {
    let (mut delivery, step) = after_script(RAW, ScriptRun::NoScript);
    match step {
        RecipientStep::RunHooks { raw } => assert_eq!(&raw[..], RAW),
        other => panic!("{:?}", other),
    }
    let request = request_of(delivery.advance(RecipientEvent::Hooks(Ok(Some(no_changes())))));
    assert_eq!(&request.raw[..], RAW);
    assert_eq!(request.mailbox_ids, vec![INBOX_ID]);
    assert!(request.keywords.is_empty());
    assert!(request.spam_classify);
    assert!(!request.spam_train);
    let step = delivery.advance(RecipientEvent::Ingested(Ok(stored(11))));
    assert!(matches!(step, RecipientStep::Done));
    assert_eq!(result_of(delivery), Ok(stored(11)));
}

#[test]
fn script_rejection_is_571() {
    let (delivery, step) = after_script(
        RAW,
        ScriptRun::Ran(SieveResult {
            messages: vec![copy(RAW, vec![INBOX_ID], false)],
            reject_reason: Some("spam".to_string()),
            discarded: true,
        }),
    );
    assert!(matches!(step, RecipientStep::Done));
    assert_eq!(
        result_of(delivery),
        Err(DeliveryError::MessageIngest { code: Some(571), reason: Some("spam".to_string()) })
    );
}

#[test]
fn script_discard_is_a_success_without_a_stored_message() {
    let (delivery, step) = after_script(
        RAW,
        ScriptRun::Ran(SieveResult {
            messages: vec![copy(RAW, vec![INBOX_ID], false)],
            reject_reason: None,
            discarded: true,
        }),
    );
    assert!(matches!(step, RecipientStep::Done));
    assert_eq!(result_of(delivery), Ok(IngestedEmail::not_ingested(RAW.len())));
}

#[test]
fn hook_discard_is_a_success_without_a_stored_message() {
    let (mut delivery, _) = after_script(RAW, ScriptRun::NoScript);
    let step = delivery.advance(RecipientEvent::Hooks(Ok(None)));
    assert!(matches!(step, RecipientStep::Done));
    let email = result_of(delivery).unwrap();
    assert_eq!(email.change_id, u64::MAX);
    assert_eq!(email, IngestedEmail::not_ingested(0));
}

#[test]
fn hook_failure_ends_the_delivery() {
    let (mut delivery, _) = after_script(RAW, ScriptRun::NoScript);
    let error = DeliveryError::MessageIngest { code: Some(451), reason: Some("later".to_string()) };
    let step = delivery.advance(RecipientEvent::Hooks(Err(error.clone())));
    assert!(matches!(step, RecipientStep::Done));
    assert_eq!(result_of(delivery), Err(error));
}

#[test]
fn hooks_shape_what_is_stored() {
    let mut output = copy(RAW, vec![INBOX_ID, 30], false);
    output.keywords = vec![Keyword::Seen];
    output.did_file_into = true;
    let (mut delivery, _) = after_script(
        RAW,
        ScriptRun::Ran(SieveResult { messages: vec![output], reject_reason: None, discarded: false }),
    );
    let outcome = HookOutcome {
        mailbox_ids: vec![31],
        flags: vec!["$junk".to_string(), "$seen".to_string()],
        skip_inbox: false,
        modifications: vec![
            HeaderModification::AddHeader { name: "X-Hook".to_string(), value: "a\nb".to_string() },
            HeaderModification::ReplaceHeader {
                index: 1,
                name: "subject".to_string(),
                value: "Changed".to_string(),
            },
        ],
    };
    let request = request_of(delivery.advance(RecipientEvent::Hooks(Ok(Some(outcome)))));
    assert_eq!(
        &request.raw[..],
        &b"X-Hook: a%0Ab\r\nSubject: Changed\r\n\r\nBody"[..]
    );
    assert_eq!(request.mailbox_ids, vec![30, 31, JUNK_ID]);
    assert_eq!(request.keywords, vec![Keyword::Seen, Keyword::Junk]);
    assert!(!request.spam_classify);
}

#[test]
fn one_stored_copy_makes_the_delivery_a_success() {
    let (mut delivery, _) = after_script(
        RAW,
        ScriptRun::Ran(SieveResult {
            messages: vec![copy(RAW, vec![1], false), copy(RAW, vec![2], false), copy(RAW, vec![3], false)],
            reject_reason: None,
            discarded: false,
        }),
    );
    let first = request_of(delivery.advance(RecipientEvent::Hooks(Ok(Some(no_changes())))));
    assert_eq!(first.mailbox_ids, vec![1]);
    let step = delivery.advance(RecipientEvent::Ingested(Err(DeliveryError::Quota)));
    assert!(matches!(step, RecipientStep::RunHooks { .. }));
    let second = request_of(delivery.advance(RecipientEvent::Hooks(Ok(Some(no_changes())))));
    assert_eq!(second.mailbox_ids, vec![2]);
    delivery.advance(RecipientEvent::Ingested(Ok(stored(5))));
    let third = request_of(delivery.advance(RecipientEvent::Hooks(Ok(Some(no_changes())))));
    assert_eq!(third.mailbox_ids, vec![3]);
    let step = delivery.advance(RecipientEvent::Ingested(Err(DeliveryError::TenantQuota)));
    assert!(matches!(step, RecipientStep::Done));
    assert_eq!(result_of(delivery), Ok(stored(5)));
}

#[test]
fn without_a_stored_copy_the_last_failure_counts() {
    let (mut delivery, _) = after_script(
        RAW,
        ScriptRun::Ran(SieveResult {
            messages: vec![copy(RAW, vec![1], false), copy(RAW, vec![2], false)],
            reject_reason: None,
            discarded: false,
        }),
    );
    delivery.advance(RecipientEvent::Hooks(Ok(Some(no_changes()))));
    delivery.advance(RecipientEvent::Ingested(Err(DeliveryError::Quota)));
    delivery.advance(RecipientEvent::Hooks(Ok(Some(no_changes()))));
    let step = delivery.advance(RecipientEvent::Ingested(Err(DeliveryError::TenantQuota)));
    assert!(matches!(step, RecipientStep::Done));
    assert_eq!(result_of(delivery), Err(DeliveryError::TenantQuota));
}

#[test]
fn changed_copy_that_does_not_parse_is_passed_over() {
    let (mut delivery, step) = after_script(
        RAW,
        ScriptRun::Ran(SieveResult {
            messages: vec![copy(b"", vec![1], true), copy(b"X: y\r\n\r\n", vec![2], true), copy(b"", vec![3], true)],
            reject_reason: None,
            discarded: false,
        }),
    );
    match step {
        RecipientStep::RunHooks { raw } => assert_eq!(&raw[..], b"X: y\r\n\r\n"),
        other => panic!("{:?}", other),
    }
    let request = request_of(delivery.advance(RecipientEvent::Hooks(Ok(Some(no_changes())))));
    assert_eq!(request.mailbox_ids, vec![2]);
    let step = delivery.advance(RecipientEvent::Ingested(Ok(stored(1))));
    assert!(matches!(step, RecipientStep::Done));
}

#[test]
fn no_copy_at_all_is_a_success_without_a_stored_message() {
    let (delivery, step) = after_script(
        RAW,
        ScriptRun::Ran(SieveResult { messages: vec![], reject_reason: None, discarded: false }),
    );
    assert!(matches!(step, RecipientStep::Done));
    assert_eq!(result_of(delivery), Ok(IngestedEmail::not_ingested(RAW.len())));
}

#[test]
fn an_event_out_of_turn_is_not_taken_in() {
    let mut delivery = begin(RAW);
    let step = delivery.advance(RecipientEvent::Hooks(Ok(None)));
    assert!(matches!(step, RecipientStep::Unanswered));
    let step = delivery.advance(RecipientEvent::Access(Ok(grant())));
    assert!(matches!(step, RecipientStep::RunScript));
    let step = delivery.advance(RecipientEvent::Ingested(Ok(stored(1))));
    assert!(matches!(step, RecipientStep::Unanswered));
    assert!(delivery.into_result().is_none());
}
