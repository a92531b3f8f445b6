//! Delivery of one message to one recipient.
//!
//! The access check, the filter script, the delivery hooks and the store
//! are not here. [`RecipientDelivery`] asks for each of them in turn and is
//! advanced with what came of it: it decides which copies of the message
//! are stored, where, with which keywords and with which bytes, and what
//! the delivery as a whole came to.

use vstd::prelude::*;
use vstd::slice::slice_to_vec;
use crate::delivery::{
    filed_by_keywords, merged_mailboxes, rewrite_message, rewritten, settle_filing, DeliveryError,
    ErrorView, HookOutcome, IngestedEmail,
};
use crate::keyword::{keywords_view, with_flags, Keyword, KeywordView};
use crate::mailbox::INBOX_ID;
use crate::parser::{is_parseable, message_parses};
use crate::text::texts;

verus! {

/// One message that the filter script wants stored.
#[derive(Debug, Clone)]
pub struct SieveOutput {
    pub raw: Vec<u8>,
    pub mailbox_ids: Vec<u32>,
    pub keywords: Vec<Keyword>,
    /// Whether the script changed the message, so that `raw` is to be
    /// parsed anew.
    pub changed: bool,
    pub did_file_into: bool,
}

/// What the filter script made of a message.
#[derive(Debug, Clone)]
pub struct SieveResult {
    pub messages: Vec<SieveOutput>,
    pub reject_reason: Option<String>,
    pub discarded: bool,
}

/// What came of looking for the account's active filter script and
/// running it.
#[derive(Debug)]
pub enum ScriptRun {
    /// The account has no active script.
    NoScript,
    Ran(SieveResult),
}

/// What the account may have done with its mail.
#[derive(Debug, Clone, Copy, PartialEq, Eq, Structural)]
pub struct AccessGrant {
    pub can_spam_classify: bool,
    pub spam_train: bool,
}

/// One copy to store.
#[derive(Debug)]
pub struct IngestRequest {
    pub raw: Vec<u8>,
    pub mailbox_ids: Vec<u32>,
    pub keywords: Vec<Keyword>,
    pub spam_classify: bool,
    pub spam_train: bool,
}

/// The step that the delivery to a recipient asks for.
#[derive(Debug)]
pub enum RecipientStep {
    /// Fetch the access token of the account and check that it may receive
    /// mail.
    CheckAccess,
    /// Look for the active filter script and run it, if there is one.
    RunScript,
    /// Ask the delivery hooks about this copy.
    RunHooks { raw: Vec<u8> },
    /// Store this copy.
    Ingest(IngestRequest),
    /// The event did not answer the step asked for last, which is still
    /// awaited.
    Unanswered,
    /// The delivery has ended.
    Done,
}

/// The answer to a step.
#[derive(Debug)]
pub enum RecipientEvent {
    /// Answers `CheckAccess`.
    Access(Result<AccessGrant, DeliveryError>),
    /// Answers `RunScript`.
    Script(Result<ScriptRun, DeliveryError>),
    /// Answers `RunHooks`: what the hooks decided, `None` for a copy that
    /// they had discarded.
    Hooks(Result<Option<HookOutcome>, DeliveryError>),
    /// Answers `Ingest`.
    Ingested(Result<IngestedEmail, DeliveryError>),
}

/// Which answer is awaited.
#[derive(Debug, Clone, Copy, PartialEq, Eq, Structural)]
pub enum Awaited {
    Access,
    Script,
    Hooks,
    Ingest,
    Nothing,
}

/// A script output as contracts see it.
pub struct OutputView {
    pub raw: Seq<u8>,
    pub mailbox_ids: Seq<u32>,
    pub keywords: Seq<KeywordView>,
    pub changed: bool,
    pub did_file_into: bool,
}

/// A report of the store as contracts see it.
pub struct EmailView {
    pub document_id: u64,
    pub thread_id: u64,
    pub change_id: u64,
    pub blob_id: Seq<u8>,
    pub size: usize,
    pub imap_uids: Seq<(u32, u32)>,
}

/// A request to store a copy as contracts see it.
pub struct IngestView {
    pub raw: Seq<u8>,
    pub mailbox_ids: Seq<u32>,
    pub keywords: Seq<KeywordView>,
    pub spam_classify: bool,
    pub spam_train: bool,
}

/// A step as contracts see it.
pub enum RecipientStepView {
    CheckAccess,
    RunScript,
    RunHooks { raw: Seq<u8> },
    Ingest(IngestView),
    Unanswered,
    Done,
}

impl View for SieveOutput {
    type V = OutputView;

    open spec fn view(&self) -> OutputView {
        OutputView {
            raw: self.raw@,
            mailbox_ids: self.mailbox_ids@,
            keywords: keywords_view(self.keywords@),
            changed: self.changed,
            did_file_into: self.did_file_into,
        }
    }
}

impl View for IngestedEmail {
    type V = EmailView;

    open spec fn view(&self) -> EmailView {
        EmailView {
            document_id: self.document_id,
            thread_id: self.thread_id,
            change_id: self.change_id,
            blob_id: self.blob_id@,
            size: self.size,
            imap_uids: self.imap_uids@,
        }
    }
}

impl View for IngestRequest {
    type V = IngestView;

    open spec fn view(&self) -> IngestView {
        IngestView {
            raw: self.raw@,
            mailbox_ids: self.mailbox_ids@,
            keywords: keywords_view(self.keywords@),
            spam_classify: self.spam_classify,
            spam_train: self.spam_train,
        }
    }
}

impl View for RecipientStep {
    type V = RecipientStepView;

    open spec fn view(&self) -> RecipientStepView {
        match *self {
            RecipientStep::CheckAccess => RecipientStepView::CheckAccess,
            RecipientStep::RunScript => RecipientStepView::RunScript,
            RecipientStep::RunHooks { raw } => RecipientStepView::RunHooks { raw: raw@ },
            RecipientStep::Ingest(request) => RecipientStepView::Ingest(request@),
            RecipientStep::Unanswered => RecipientStepView::Unanswered,
            RecipientStep::Done => RecipientStepView::Done,
        }
    }
}

/// The views of a list of script outputs.
pub open spec fn outputs_view(outputs: Seq<SieveOutput>) -> Seq<OutputView> {
    outputs.map_values(|o: SieveOutput| o@)
}

/// The delivery to one recipient as contracts see it.
pub struct RecipientView {
    /// The message as it was staged.
    pub raw: Seq<u8>,
    pub grant: Option<AccessGrant>,
    /// The copies still to deal with, in the order of the script.
    pub queue: Seq<OutputView>,
    /// The copy that the hooks or the store are asked about.
    pub current: Option<OutputView>,
    pub awaited: Awaited,
    /// Whether the store took a copy.
    pub has_delivered: bool,
    /// The last failure of the store.
    pub last_error: Option<ErrorView>,
    /// What the store reported last.
    pub last_ingested: EmailView,
    /// How the delivery ended, once it has.
    pub ending: Option<EndingView>,
}

/// How a delivery to a recipient ended.
#[derive(Debug)]
pub enum Ending {
    /// Every copy was dealt with.
    Settled,
    /// The hooks had the message dropped.
    Dropped,
    /// The delivery failed.
    Failed(DeliveryError),
}

/// An ending as contracts see it.
pub enum EndingView {
    Settled,
    Dropped,
    Failed(ErrorView),
}

impl View for Ending {
    type V = EndingView;

    open spec fn view(&self) -> EndingView {
        match *self {
            Ending::Settled => EndingView::Settled,
            Ending::Dropped => EndingView::Dropped,
            Ending::Failed(error) => EndingView::Failed(error@),
        }
    }
}

/// The report of a message of `size` bytes that was not stored.
pub open spec fn not_ingested(size: usize) -> EmailView {
    EmailView {
        document_id: 0,
        thread_id: 0,
        change_id: u64::MAX,
        blob_id: Seq::empty(),
        size,
        imap_uids: Seq::empty(),
    }
}

/// The failure of a message that the MIME parser does not accept.
pub open spec fn parse_failure() -> ErrorView {
    ErrorView::MessageIngest { code: Some(550), reason: Some("Failed to parse e-mail message."@) }
}

/// The failure of a message that the filter script rejects.
pub open spec fn script_rejection(reason: Seq<char>) -> ErrorView {
    ErrorView::MessageIngest { code: Some(571), reason: Some(reason) }
}

/// The one copy of an account without a filter script: the message as it
/// is, for the inbox.
pub open spec fn plain_copy(raw: Seq<u8>) -> OutputView {
    OutputView {
        raw,
        mailbox_ids: seq![INBOX_ID],
        keywords: Seq::empty(),
        changed: false,
        did_file_into: false,
    }
}

/// The delivery before anything is known.
pub open spec fn recipient_start(raw: Seq<u8>) -> RecipientView {
    RecipientView {
        raw,
        grant: None,
        queue: Seq::empty(),
        current: None,
        awaited: Awaited::Access,
        has_delivered: false,
        last_error: None,
        last_ingested: not_ingested(raw.len() as usize),
        ending: None,
    }
}

/// Whether a copy can be delivered: one that the script changed has to
/// parse.
pub open spec fn deliverable(output: OutputView) -> bool {
    !output.changed || message_parses(output.raw)
}

/// What a delivery comes to when no copy is left: success if the store
/// took a copy or never failed, else the store's last failure.
pub open spec fn outcome(view: RecipientView) -> Result<EmailView, ErrorView> {
    if view.has_delivered || view.last_error is None {
        Ok(view.last_ingested)
    } else {
        Err(view.last_error.unwrap())
    }
}

/// `view` ended.
pub open spec fn finished(view: RecipientView, ending: EndingView) -> (
    RecipientView,
    RecipientStepView,
) {
    (
        RecipientView { awaited: Awaited::Nothing, current: None, ending: Some(ending), ..view },
        RecipientStepView::Done,
    )
}

/// What a delivery came to, once it has ended. A message that the script
/// discards or that leaves no copy to store counts as delivered, with the
/// report of a message that was not stored; so does one that the hooks had
/// dropped.
pub open spec fn recipient_result(view: RecipientView) -> Option<Result<EmailView, ErrorView>> {
    match view.ending {
        None => None,
        Some(EndingView::Settled) => Some(outcome(view)),
        Some(EndingView::Dropped) => Some(Ok(not_ingested(0))),
        Some(EndingView::Failed(error)) => Some(Err(error)),
    }
}

/// Goes on to the next copy that can be delivered and asks the hooks about
/// it; ends the delivery where none is left.
pub open spec fn proceed(view: RecipientView) -> (RecipientView, RecipientStepView)
    decreases view.queue.len(),
{
    if view.queue.len() == 0 {
        finished(view, EndingView::Settled)
    } else if deliverable(view.queue[0]) {
        (
            RecipientView {
                queue: view.queue.skip(1),
                current: Some(view.queue[0]),
                awaited: Awaited::Hooks,
                ..view
            },
            RecipientStepView::RunHooks { raw: view.queue[0].raw },
        )
    } else {
        proceed(RecipientView { queue: view.queue.skip(1), ..view })
    }
}

/// The bytes to store for a copy: what the header changes of the hooks
/// make of it, where they change anything and the MIME parser accepts the
/// result; else the copy as it is.
pub open spec fn stored_bytes(raw: Seq<u8>, hooks: HookOutcome) -> Seq<u8> {
    match rewritten(hooks.modifications@, raw) {
        Some(bytes) => if message_parses(bytes) {
            bytes
        } else {
            raw
        },
        None => raw,
    }
}

/// The request to store `copy` once the hooks have had their say.
pub open spec fn ingest_request(copy: OutputView, grant: AccessGrant, hooks: HookOutcome) -> IngestView {
    let keywords = with_flags(copy.keywords, texts(hooks.flags@));
    IngestView {
        raw: stored_bytes(copy.raw, hooks),
        mailbox_ids: filed_by_keywords(
            merged_mailboxes(copy.mailbox_ids, hooks.mailbox_ids@, hooks.skip_inbox),
            keywords,
        ),
        keywords,
        spam_classify: grant.can_spam_classify && !copy.did_file_into,
        spam_train: grant.spam_train,
    }
}

/// The delivery after `event`, and the step it asks for.
pub open spec fn recipient_step(view: RecipientView, event: RecipientEvent) -> (
    RecipientView,
    RecipientStepView,
) {
    match (view.awaited, event) {
        (Awaited::Access, RecipientEvent::Access(Err(error))) => finished(
            view,
            EndingView::Failed(error@),
        ),
        (Awaited::Access, RecipientEvent::Access(Ok(grant))) => {
            if message_parses(view.raw) {
                (
                    RecipientView { grant: Some(grant), awaited: Awaited::Script, ..view },
                    RecipientStepView::RunScript,
                )
            } else {
                finished(view, EndingView::Failed(parse_failure()))
            }
        },
        (Awaited::Script, RecipientEvent::Script(Err(error))) => finished(
            view,
            EndingView::Failed(error@),
        ),
        (Awaited::Script, RecipientEvent::Script(Ok(ScriptRun::NoScript))) => proceed(
            RecipientView { queue: seq![plain_copy(view.raw)], ..view },
        ),
        (Awaited::Script, RecipientEvent::Script(Ok(ScriptRun::Ran(result)))) => {
            match result.reject_reason {
                Some(reason) => finished(view, EndingView::Failed(script_rejection(reason@))),
                None => if result.discarded {
                    finished(view, EndingView::Settled)
                } else {
                    proceed(RecipientView { queue: outputs_view(result.messages@), ..view })
                },
            }
        },
        (Awaited::Hooks, RecipientEvent::Hooks(Err(error))) => finished(
            view,
            EndingView::Failed(error@),
        ),
        (Awaited::Hooks, RecipientEvent::Hooks(Ok(None))) => finished(view, EndingView::Dropped),
        (Awaited::Hooks, RecipientEvent::Hooks(Ok(Some(hooks)))) => {
            if view.current is Some && view.grant is Some {
                (
                    RecipientView { awaited: Awaited::Ingest, current: None, ..view },
                    RecipientStepView::Ingest(
                        ingest_request(view.current.unwrap(), view.grant.unwrap(), hooks),
                    ),
                )
            } else {
                (view, RecipientStepView::Unanswered)
            }
        },
        (Awaited::Ingest, RecipientEvent::Ingested(Ok(email))) => proceed(
            RecipientView { has_delivered: true, last_ingested: email@, ..view },
        ),
        (Awaited::Ingest, RecipientEvent::Ingested(Err(error))) => proceed(
            RecipientView { last_error: Some(error@), ..view },
        ),
        (Awaited::Nothing, _) => (view, RecipientStepView::Done),
        _ => (view, RecipientStepView::Unanswered),
    }
}

/// The view of what a delivery came to.
pub open spec fn outcome_view(result: Option<Result<IngestedEmail, DeliveryError>>) -> Option<
    Result<EmailView, ErrorView>,
> {
    match result {
        None => None,
        Some(Ok(email)) => Some(Ok(email@)),
        Some(Err(error)) => Some(Err(error@)),
    }
}

/// The view of an optional ending.
pub open spec fn option_ending(ending: Option<Ending>) -> Option<EndingView> {
    match ending {
        Some(e) => Some(e@),
        None => None,
    }
}

/// The view of an optional error.
pub open spec fn option_error(error: Option<DeliveryError>) -> Option<ErrorView> {
    match error {
        Some(e) => Some(e@),
        None => None,
    }
}

/// The view of an optional script output.
pub open spec fn option_output(output: Option<SieveOutput>) -> Option<OutputView> {
    match output {
        Some(o) => Some(o@),
        None => None,
    }
}

/// The delivery of one message to one recipient.
pub struct RecipientDelivery {
    raw: Vec<u8>,
    session_id: u64,
    grant: Option<AccessGrant>,
    queue: Vec<SieveOutput>,
    current: Option<SieveOutput>,
    awaited: Awaited,
    has_delivered: bool,
    last_error: Option<DeliveryError>,
    last_ingested: IngestedEmail,
    ending: Option<Ending>,
}

impl View for RecipientDelivery {
    type V = RecipientView;

    closed spec fn view(&self) -> RecipientView {
        RecipientView {
            raw: self.raw@,
            grant: self.grant,
            queue: outputs_view(self.queue@),
            current: option_output(self.current),
            awaited: self.awaited,
            has_delivered: self.has_delivered,
            last_error: option_error(self.last_error),
            last_ingested: self.last_ingested@,
            ending: option_ending(self.ending),
        }
    }
}

/// Begins the delivery of the staged message `raw` to one recipient. The
/// first step is always `CheckAccess`.
pub fn deliver_to_recipient(raw: Vec<u8>, session_id: u64) -> (begun: (
    RecipientDelivery,
    RecipientStep,
))
    ensures
        begun.0@ == recipient_start(raw@),
        begun.1@ == RecipientStepView::CheckAccess,
{
    let size = raw.len();
    let delivery = RecipientDelivery {
        raw,
        session_id,
        grant: None,
        queue: Vec::new(),
        current: None,
        awaited: Awaited::Access,
        has_delivered: false,
        last_error: None,
        last_ingested: IngestedEmail::not_ingested(size),
        ending: None,
    };
    assert(delivery@.queue =~= Seq::<OutputView>::empty());
    assert(delivery@.last_ingested.blob_id =~= Seq::<u8>::empty());
    assert(delivery@.last_ingested.imap_uids =~= Seq::<(u32, u32)>::empty());
    (delivery, RecipientStep::CheckAccess)
}

impl RecipientDelivery {
    fn finish(&mut self, ending: Ending) -> (step: RecipientStep)
        ensures
            (final(self)@, step@) == finished(old(self)@, ending@),
    {
        self.awaited = Awaited::Nothing;
        self.current = None;
        self.ending = Some(ending);
        RecipientStep::Done
    }

    fn go_on(&mut self) -> (step: RecipientStep)
        ensures
            (final(self)@, step@) == proceed(old(self)@),
    {
        while self.queue.len() > 0
            invariant
                proceed(self@) == proceed(old(self)@),
            decreases self.queue@.len(),
        {
            let ghost before = self@;
            let copy = self.queue.remove(0);
            assert(self@.queue =~= before.queue.skip(1));
            assert(copy@ == before.queue[0]);
            if !copy.changed || is_parseable(copy.raw.as_slice()) {
                let raw = slice_to_vec(copy.raw.as_slice());
                self.current = Some(copy);
                self.awaited = Awaited::Hooks;
                return RecipientStep::RunHooks { raw };
            }
        }
        self.finish(Ending::Settled)
    }

    /// Takes in the answer to the step asked for last and says what to do
    /// next.
    pub fn advance(&mut self, event: RecipientEvent) -> (step: RecipientStep)
        ensures
            (final(self)@, step@) == recipient_step(old(self)@, event),
    {
        match (self.awaited, event) {
            (Awaited::Access, RecipientEvent::Access(Err(error))) => self.finish(
                Ending::Failed(error),
            ),
            (Awaited::Access, RecipientEvent::Access(Ok(grant))) => {
                if is_parseable(self.raw.as_slice()) {
                    self.grant = Some(grant);
                    self.awaited = Awaited::Script;
                    RecipientStep::RunScript
                } else {
                    self.finish(
                        Ending::Failed(
                            DeliveryError::MessageIngest {
                                code: Some(550),
                                reason: Some("Failed to parse e-mail message.".to_owned()),
                            },
                        ),
                    )
                }
            },
            (Awaited::Script, RecipientEvent::Script(Err(error))) => self.finish(
                Ending::Failed(error),
            ),
            (Awaited::Script, RecipientEvent::Script(Ok(ScriptRun::NoScript))) => {
                let mut mailbox_ids: Vec<u32> = Vec::new();
                mailbox_ids.push(INBOX_ID);
                let copy = SieveOutput {
                    raw: slice_to_vec(self.raw.as_slice()),
                    mailbox_ids,
                    keywords: Vec::new(),
                    changed: false,
                    did_file_into: false,
                };
                assert(copy@.mailbox_ids =~= seq![INBOX_ID]);
                assert(copy@.keywords =~= Seq::<KeywordView>::empty());
                let mut queue: Vec<SieveOutput> = Vec::new();
                queue.push(copy);
                self.queue = queue;
                assert(self@.queue =~= seq![plain_copy(old(self)@.raw)]);
                self.go_on()
            },
            (Awaited::Script, RecipientEvent::Script(Ok(ScriptRun::Ran(result)))) => {
                match result.reject_reason {
                    Some(reason) => self.finish(
                        Ending::Failed(
                            DeliveryError::MessageIngest { code: Some(571), reason: Some(reason) },
                        ),
                    ),
                    None => {
                        if result.discarded {
                            self.finish(Ending::Settled)
                        } else {
                            self.queue = result.messages;
                            self.go_on()
                        }
                    },
                }
            },
            (Awaited::Hooks, RecipientEvent::Hooks(Err(error))) => self.finish(
                Ending::Failed(error),
            ),
            (Awaited::Hooks, RecipientEvent::Hooks(Ok(None))) => self.finish(Ending::Dropped),
            (Awaited::Hooks, RecipientEvent::Hooks(Ok(Some(hooks)))) => {
                match (self.current.take(), self.grant) {
                    (Some(copy), Some(grant)) => {
                        let mut mailbox_ids = copy.mailbox_ids;
                        let mut keywords = copy.keywords;
                        settle_filing(&mut mailbox_ids, &mut keywords, &hooks);
                        let raw = match rewrite_message(
                            copy.raw.as_slice(),
                            &hooks.modifications,
                            self.session_id,
                        ) {
                            Some(bytes) => bytes,
                            None => copy.raw,
                        };
                        let request = IngestRequest {
                            raw,
                            mailbox_ids,
                            keywords,
                            spam_classify: grant.can_spam_classify && !copy.did_file_into,
                            spam_train: grant.spam_train,
                        };
                        self.awaited = Awaited::Ingest;
                        RecipientStep::Ingest(request)
                    },
                    (current, _) => {
                        self.current = current;
                        RecipientStep::Unanswered
                    },
                }
            },
            (Awaited::Ingest, RecipientEvent::Ingested(Ok(email))) => {
                self.has_delivered = true;
                self.last_ingested = email;
                self.go_on()
            },
            (Awaited::Ingest, RecipientEvent::Ingested(Err(error))) => {
                self.last_error = Some(error);
                self.go_on()
            },
            (Awaited::Nothing, _) => RecipientStep::Done,
            _ => RecipientStep::Unanswered,
        }
    }

    /// What the delivery came to: `None` while it has not ended.
    pub fn into_result(self) -> (result: Option<Result<IngestedEmail, DeliveryError>>)
        ensures
            outcome_view(result) == recipient_result(self@),
    {
        match self.ending {
            None => None,
            Some(Ending::Settled) => {
                if self.has_delivered {
                    Some(Ok(self.last_ingested))
                } else {
                    match self.last_error {
                        Some(error) => Some(Err(error)),
                        None => Some(Ok(self.last_ingested)),
                    }
                }
            },
            Some(Ending::Dropped) => {
                let email = IngestedEmail::not_ingested(0);
                assert(email@ =~= not_ingested(0)) by {
                    assert(email@.blob_id =~= Seq::<u8>::empty());
                    assert(email@.imap_uids =~= Seq::<(u32, u32)>::empty());
                }
                Some(Ok(email))
            },
            Some(Ending::Failed(error)) => Some(Err(error)),
        }
    }
}

} // verus!
