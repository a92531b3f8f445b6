//! Merging of what the delivery hooks answered for one copy of a message.
//!
//! The answers are taken in the order in which they came back. Finding or
//! creating a mailbox is work for the mailbox cache and the store, which
//! are not here: [`HookFold`] asks for it step by step and is advanced with
//! each answer, until it is done.

use vstd::prelude::*;
use crate::delivery::{DeliveryError, ErrorView, HookOutcome};
use crate::hooks::{
    Action, Address, Envelope, HeaderModification, Message, Modification, Request, Response,
};
use crate::parser::{decode_utf8_lossy, parse_headers, parsed_headers, utf8_lossy};
use crate::mailbox::{add_id, with_id, INBOX_ID, TRASH_ID};
use crate::text::{
    add_texts, eq_ignore_ascii_case, option_text, str_eq_ignore_ascii_case, texts, with_texts,
};

verus! {

/// What came back from one enabled hook.
#[derive(Debug)]
pub struct HookReply {
    /// Whether a failure or a rejection of this hook is to fail the
    /// delivery for the time being.
    pub tempfail_on_error: bool,
    /// The hook's answer, or why there is none.
    pub outcome: Result<Response, String>,
}

/// A way to find the mailbox that a hook wants a message filed into.
#[derive(Debug, Clone, PartialEq, Eq)]
pub enum MailboxLookup {
    /// The mailbox with this id, if the account has it.
    ById(String),
    /// The mailbox with this special-use role.
    ByRole(String),
    /// The mailbox at this path.
    ByPath(String),
    /// The mailbox at this path, created where it is missing.
    Create(String),
}

/// What the merging asks for next.
#[derive(Debug, Clone, PartialEq, Eq)]
pub enum HookStep {
    /// Fetch the mailbox cache of the account.
    OpenCache,
    /// Find a mailbox.
    Lookup(MailboxLookup),
    /// Nothing; advance again.
    Continue,
    /// The merging has ended.
    Done,
}

/// The answer to a step.
#[derive(Debug)]
pub enum HookEvent {
    /// Answers `OpenCache`.
    CacheOpened(Result<(), DeliveryError>),
    /// Answers `Lookup`: the mailbox found, if any.
    Resolved(Result<Option<u32>, DeliveryError>),
}

/// Which way of finding a mailbox is tried next.
#[derive(Debug, Clone, Copy, PartialEq, Eq, Structural)]
pub enum Stage {
    ById,
    ByRole,
    ByPath,
}

/// How the merging ended.
#[derive(Debug)]
pub enum Ending {
    /// Every answer was taken in.
    Complete,
    /// A hook had the message discarded.
    Discarded,
    /// The cache, the store or a hook made the delivery fail.
    Failed(DeliveryError),
}

/// A modification, its texts as character sequences. The flags of a
/// filing are not part of it: nothing reads them.
pub enum ModificationView {
    FileInto { folder: Seq<char>, mailbox_id: Seq<char>, special_use: Option<Seq<char>>, create: bool },
    AddHeader { name: Seq<char>, value: Seq<char> },
    ReplaceHeader { index: u32, name: Seq<char>, value: Seq<char> },
}

/// A header change, its texts as character sequences.
pub enum HeaderModificationView {
    AddHeader { name: Seq<char>, value: Seq<char> },
    ReplaceHeader { index: u32, name: Seq<char>, value: Seq<char> },
}

/// An answer of a hook as contracts see it.
pub struct ResponseView {
    pub action: Action,
    pub modifications: Seq<ModificationView>,
    pub flags: Seq<Seq<char>>,
    pub skip_inbox: bool,
}

/// What came back from a hook as contracts see it: `response` is `None`
/// where the hook gave no answer.
pub struct ReplyView {
    pub tempfail_on_error: bool,
    pub response: Option<ResponseView>,
}

/// A lookup, its text as a character sequence.
pub enum LookupView {
    ById(Seq<char>),
    ByRole(Seq<char>),
    ByPath(Seq<char>),
    Create(Seq<char>),
}

/// A step as contracts see it.
pub enum StepView {
    OpenCache,
    Lookup(LookupView),
    Continue,
    Done,
}

/// An event as contracts see it.
pub enum HookEventView {
    CacheOpened(Result<(), ErrorView>),
    Resolved(Result<Option<u32>, ErrorView>),
}

/// An ending as contracts see it.
pub enum EndingView {
    Complete,
    Discarded,
    Failed(ErrorView),
}

/// What the hooks decided, as contracts see it.
pub struct OutcomeView {
    pub mailbox_ids: Seq<u32>,
    pub flags: Seq<Seq<char>>,
    pub skip_inbox: bool,
    pub modifications: Seq<HeaderModificationView>,
}

impl View for Modification {
    type V = ModificationView;

    open spec fn view(&self) -> ModificationView {
        match *self {
            Modification::FileInto { folder, mailbox_id, special_use, create, flags } => {
                ModificationView::FileInto {
                    folder: folder@,
                    mailbox_id: mailbox_id@,
                    special_use: option_text(special_use),
                    create,
                }
            },
            Modification::AddHeader { name, value } => ModificationView::AddHeader {
                name: name@,
                value: value@,
            },
            Modification::ReplaceHeader { index, name, value } => ModificationView::ReplaceHeader {
                index,
                name: name@,
                value: value@,
            },
        }
    }
}

impl View for HeaderModification {
    type V = HeaderModificationView;

    open spec fn view(&self) -> HeaderModificationView {
        match *self {
            HeaderModification::AddHeader { name, value } => HeaderModificationView::AddHeader {
                name: name@,
                value: value@,
            },
            HeaderModification::ReplaceHeader { index, name, value } => {
                HeaderModificationView::ReplaceHeader { index, name: name@, value: value@ }
            },
        }
    }
}

impl View for Response {
    type V = ResponseView;

    open spec fn view(&self) -> ResponseView {
        ResponseView {
            action: self.action,
            modifications: self.modifications@.map_values(|m: Modification| m@),
            flags: texts(self.flags@),
            skip_inbox: self.skip_inbox,
        }
    }
}

impl View for HookReply {
    type V = ReplyView;

    open spec fn view(&self) -> ReplyView {
        ReplyView {
            tempfail_on_error: self.tempfail_on_error,
            response: match self.outcome {
                Ok(response) => Some(response@),
                Err(_) => None,
            },
        }
    }
}

impl View for MailboxLookup {
    type V = LookupView;

    open spec fn view(&self) -> LookupView {
        match *self {
            MailboxLookup::ById(text) => LookupView::ById(text@),
            MailboxLookup::ByRole(text) => LookupView::ByRole(text@),
            MailboxLookup::ByPath(text) => LookupView::ByPath(text@),
            MailboxLookup::Create(text) => LookupView::Create(text@),
        }
    }
}

impl View for HookStep {
    type V = StepView;

    open spec fn view(&self) -> StepView {
        match *self {
            HookStep::OpenCache => StepView::OpenCache,
            HookStep::Lookup(lookup) => StepView::Lookup(lookup@),
            HookStep::Continue => StepView::Continue,
            HookStep::Done => StepView::Done,
        }
    }
}

impl View for HookEvent {
    type V = HookEventView;

    open spec fn view(&self) -> HookEventView {
        match *self {
            HookEvent::CacheOpened(Ok(())) => HookEventView::CacheOpened(Ok(())),
            HookEvent::CacheOpened(Err(error)) => HookEventView::CacheOpened(Err(error@)),
            HookEvent::Resolved(Ok(found)) => HookEventView::Resolved(Ok(found)),
            HookEvent::Resolved(Err(error)) => HookEventView::Resolved(Err(error@)),
        }
    }
}

impl View for Ending {
    type V = EndingView;

    open spec fn view(&self) -> EndingView {
        match *self {
            Ending::Complete => EndingView::Complete,
            Ending::Discarded => EndingView::Discarded,
            Ending::Failed(error) => EndingView::Failed(error@),
        }
    }
}

impl View for HookOutcome {
    type V = OutcomeView;

    open spec fn view(&self) -> OutcomeView {
        OutcomeView {
            mailbox_ids: self.mailbox_ids@,
            flags: texts(self.flags@),
            skip_inbox: self.skip_inbox,
            modifications: self.modifications@.map_values(|m: HeaderModification| m@),
        }
    }
}

/// The view of an optional event.
pub open spec fn event_view(event: Option<HookEvent>) -> Option<HookEventView> {
    match event {
        Some(e) => Some(e@),
        None => None,
    }
}

/// The view of an optional ending.
pub open spec fn ending_view(ending: Option<Ending>) -> Option<EndingView> {
    match ending {
        Some(e) => Some(e@),
        None => None,
    }
}

/// The merging as contracts see it.
pub struct FoldView {
    /// The answers, in the order in which they came back.
    pub replies: Seq<ReplyView>,
    /// The answer that is being taken in.
    pub reply: nat,
    /// The next of its modifications.
    pub modification: nat,
    /// How the mailbox of that modification is looked for next.
    pub stage: Stage,
    /// Whether a lookup was asked for and is not yet answered.
    pub asked: bool,
    /// Whether the mailbox cache was fetched.
    pub opened: bool,
    pub mailbox_ids: Seq<u32>,
    pub flags: Seq<Seq<char>>,
    pub skip_inbox: bool,
    pub modifications: Seq<HeaderModificationView>,
    pub should_tempfail: bool,
    pub should_permfail: bool,
    pub ending: Option<EndingView>,
}

/// The header that marks a quarantined message.
pub open spec fn quarantine_header() -> HeaderModificationView {
    HeaderModificationView::AddHeader { name: "X-Quarantine"@, value: "true"@ }
}

/// The error of a delivery that a hook turned down for the time being.
pub open spec fn hook_tempfail() -> ErrorView {
    ErrorView::MessageIngest {
        code: Some(451),
        reason: Some("Message temporarily rejected by delivery hook"@),
    }
}

/// The error of a delivery that a hook turned down for good.
pub open spec fn hook_permfail() -> ErrorView {
    ErrorView::MessageIngest { code: Some(550), reason: Some("Message rejected by delivery hook"@) }
}

/// The merging before any answer is taken in. Without answers it has ended
/// already, with nothing to change.
pub open spec fn fold_start(replies: Seq<ReplyView>) -> FoldView {
    FoldView {
        replies,
        reply: 0,
        modification: 0,
        stage: Stage::ById,
        asked: false,
        opened: false,
        mailbox_ids: Seq::empty(),
        flags: Seq::empty(),
        skip_inbox: false,
        modifications: Seq::empty(),
        should_tempfail: false,
        should_permfail: false,
        ending: if replies.len() == 0 {
            Some(EndingView::Complete)
        } else {
            None
        },
    }
}

/// The step that a merging at its start asks for.
pub open spec fn first_step(replies: Seq<ReplyView>) -> StepView {
    if replies.len() == 0 {
        StepView::Done
    } else {
        StepView::OpenCache
    }
}

/// `view` moved on to the next modification of the same answer.
pub open spec fn next_modification(view: FoldView) -> FoldView {
    FoldView { modification: view.modification + 1, stage: Stage::ById, asked: false, ..view }
}

/// `view` moved on to the next answer.
pub open spec fn next_reply(view: FoldView) -> FoldView {
    FoldView { reply: view.reply + 1, modification: 0, stage: Stage::ById, asked: false, ..view }
}

/// `view` with the mailbox of the current modification found.
pub open spec fn filed(view: FoldView, id: u32) -> FoldView {
    next_modification(FoldView { mailbox_ids: with_id(view.mailbox_ids, id), ..view })
}

/// `view` ended.
pub open spec fn ended(view: FoldView, ending: EndingView) -> (FoldView, StepView) {
    (FoldView { ending: Some(ending), asked: false, ..view }, StepView::Done)
}

/// How a merging ends once every answer is taken in: a failure for the
/// time being goes before one for good, and either before success.
pub open spec fn verdict(view: FoldView) -> EndingView {
    if view.should_tempfail {
        EndingView::Failed(hook_tempfail())
    } else if view.should_permfail {
        EndingView::Failed(hook_permfail())
    } else {
        EndingView::Complete
    }
}

/// One lookup for the current modification: asked for where it was not,
/// asked for again where `event` does not answer it, and with its answer
/// either the mailbox is filed into, or `otherwise` is where the merging
/// goes on, or the failure ends it.
pub open spec fn looked_up(
    view: FoldView,
    event: Option<HookEventView>,
    lookup: LookupView,
    otherwise: FoldView,
) -> (FoldView, StepView) {
    if !view.asked {
        (FoldView { asked: true, ..view }, StepView::Lookup(lookup))
    } else {
        match event {
            Some(HookEventView::Resolved(Ok(Some(id)))) => (filed(view, id), StepView::Continue),
            Some(HookEventView::Resolved(Ok(None))) => (otherwise, StepView::Continue),
            Some(HookEventView::Resolved(Err(error))) => ended(view, EndingView::Failed(error)),
            _ => (view, StepView::Lookup(lookup)),
        }
    }
}

/// One step for a modification that files the message into a mailbox. The
/// mailbox is looked for by id where one is given, then by role where one
/// is given, then by path, and created there where the hook says so. The
/// roles `inbox` and `trash` need no lookup. A mailbox that is not found
/// is passed over.
pub open spec fn file_into_step(
    view: FoldView,
    event: Option<HookEventView>,
    folder: Seq<char>,
    mailbox_id: Seq<char>,
    special_use: Option<Seq<char>>,
    create: bool,
) -> (FoldView, StepView) {
    match view.stage {
        Stage::ById => {
            if mailbox_id.len() == 0 {
                (FoldView { stage: Stage::ByRole, asked: false, ..view }, StepView::Continue)
            } else {
                looked_up(
                    view,
                    event,
                    LookupView::ById(mailbox_id),
                    FoldView { stage: Stage::ByRole, asked: false, ..view },
                )
            }
        },
        Stage::ByRole => match special_use {
            None => (FoldView { stage: Stage::ByPath, asked: false, ..view }, StepView::Continue),
            Some(role) => {
                if eq_ignore_ascii_case(role, "inbox"@) {
                    (filed(view, INBOX_ID), StepView::Continue)
                } else if eq_ignore_ascii_case(role, "trash"@) {
                    (filed(view, TRASH_ID), StepView::Continue)
                } else {
                    looked_up(
                        view,
                        event,
                        LookupView::ByRole(role),
                        FoldView { stage: Stage::ByPath, asked: false, ..view },
                    )
                }
            },
        },
        Stage::ByPath => looked_up(
            view,
            event,
            if create {
                LookupView::Create(folder)
            } else {
                LookupView::ByPath(folder)
            },
            next_modification(view),
        ),
    }
}

/// What the verdict of an answer does to the merging. A discard ends it at
/// once; a rejection counts as a failure for the time being or for good,
/// as the hook is set up; a quarantine marks the message with a header.
pub open spec fn acted(view: FoldView, tempfail_on_error: bool, action: Action) -> (
    FoldView,
    StepView,
) {
    match action {
        Action::Accept => (next_reply(view), StepView::Continue),
        Action::Discard => ended(view, EndingView::Discarded),
        Action::Quarantine => (
            next_reply(
                FoldView { modifications: view.modifications.push(quarantine_header()), ..view },
            ),
            StepView::Continue,
        ),
        Action::Reject => (
            next_reply(
                FoldView {
                    should_tempfail: view.should_tempfail || tempfail_on_error,
                    should_permfail: view.should_permfail || !tempfail_on_error,
                    ..view
                },
            ),
            StepView::Continue,
        ),
    }
}

/// The end of one answer: its flags and its wish to skip the inbox are
/// merged in, then its verdict counts.
pub open spec fn reply_end(view: FoldView, tempfail_on_error: bool, response: ResponseView) -> (
    FoldView,
    StepView,
) {
    acted(
        FoldView {
            skip_inbox: view.skip_inbox || response.skip_inbox,
            flags: with_texts(view.flags, response.flags),
            ..view
        },
        tempfail_on_error,
        response.action,
    )
}

/// One step of the merging: the state after it and what it asks for.
pub open spec fn hook_step(view: FoldView, event: Option<HookEventView>) -> (FoldView, StepView) {
    if view.ending is Some {
        (view, StepView::Done)
    } else if !view.opened {
        match event {
            Some(HookEventView::CacheOpened(Ok(_))) => (
                FoldView { opened: true, ..view },
                StepView::Continue,
            ),
            Some(HookEventView::CacheOpened(Err(error))) => ended(view, EndingView::Failed(error)),
            _ => (view, StepView::OpenCache),
        }
    } else if view.reply >= view.replies.len() {
        ended(view, verdict(view))
    } else {
        let reply = view.replies[view.reply as int];
        match reply.response {
            None => (
                next_reply(
                    FoldView {
                        should_tempfail: view.should_tempfail || reply.tempfail_on_error,
                        ..view
                    },
                ),
                StepView::Continue,
            ),
            Some(response) => {
                if view.modification < response.modifications.len() {
                    match response.modifications[view.modification as int] {
                        ModificationView::FileInto { folder, mailbox_id, special_use, create } => {
                            file_into_step(view, event, folder, mailbox_id, special_use, create)
                        },
                        ModificationView::AddHeader { name, value } => (
                            next_modification(
                                FoldView {
                                    modifications: view.modifications.push(
                                        HeaderModificationView::AddHeader { name, value },
                                    ),
                                    ..view
                                },
                            ),
                            StepView::Continue,
                        ),
                        ModificationView::ReplaceHeader { index, name, value } => (
                            next_modification(
                                FoldView {
                                    modifications: view.modifications.push(
                                        HeaderModificationView::ReplaceHeader { index, name, value },
                                    ),
                                    ..view
                                },
                            ),
                            StepView::Continue,
                        ),
                    }
                } else {
                    reply_end(view, reply.tempfail_on_error, response)
                }
            },
        }
    }
}

/// What the merging came to, once it has ended: the changes to make, or
/// `None` for a message that is dropped without an error, or the failure.
pub open spec fn fold_result(view: FoldView) -> Option<Result<Option<OutcomeView>, ErrorView>> {
    match view.ending {
        None => None,
        Some(EndingView::Complete) => Some(
            Ok(
                Some(
                    OutcomeView {
                        mailbox_ids: view.mailbox_ids,
                        flags: view.flags,
                        skip_inbox: view.skip_inbox,
                        modifications: view.modifications,
                    },
                ),
            ),
        ),
        Some(EndingView::Discarded) => Some(Ok(None)),
        Some(EndingView::Failed(error)) => Some(Err(error)),
    }
}


/// Whether an event reports a failure of the cache or the store.
pub open spec fn is_failure(event: HookEventView) -> bool {
    match event {
        HookEventView::CacheOpened(Err(_)) => true,
        HookEventView::Resolved(Err(_)) => true,
        _ => false,
    }
}

/// The merging after at most `fuel` steps from `view`, where `event`
/// answers the step asked for last and `answers` are the answers to the
/// steps asked for from here on, in order. It stops early once it has
/// ended, or when a step is asked for and no answer is left.
pub open spec fn fold_run(
    view: FoldView,
    event: Option<HookEventView>,
    answers: Seq<HookEventView>,
    fuel: nat,
) -> FoldView
    decreases fuel,
{
    if fuel == 0 {
        view
    } else {
        let (next, step) = hook_step(view, event);
        match step {
            StepView::Done => next,
            StepView::Continue => fold_run(next, None, answers, (fuel - 1) as nat),
            _ => if answers.len() == 0 {
                next
            } else {
                fold_run(next, Some(answers[0]), answers.skip(1), (fuel - 1) as nat)
            },
        }
    }
}

/// Whether the answer at `index` is a hook's answer with the verdict to
/// discard the message.
pub open spec fn discards(replies: Seq<ReplyView>, index: int) -> bool {
    &&& 0 <= index < replies.len()
    &&& replies[index].response is Some
    &&& replies[index].response.unwrap().action == Action::Discard
}

/// Whether the answer at `index` makes the delivery fail for the time
/// being: a hook that fails on error and either did not answer or rejected
/// the message.
pub open spec fn tempfails(replies: Seq<ReplyView>, index: int) -> bool {
    &&& 0 <= index < replies.len()
    &&& replies[index].tempfail_on_error
    &&& (replies[index].response is None || replies[index].response.unwrap().action
        == Action::Reject)
}

/// Where a hook's answer with the verdict to discard is still to come, one
/// step either ends the merging as discarded, or leaves that answer still
/// to come; unless the cache or the store reports a failure.
proof fn lemma_discard_step(view: FoldView, event: Option<HookEventView>, index: int)
    requires
        view.ending is None,
        view.reply <= index,
        discards(view.replies, index),
        event is Some ==> !is_failure(event.unwrap()),
    ensures
        ({
            let (next, step) = hook_step(view, event);
            &&& next.replies == view.replies
            &&& next.ending is Some ==> next.ending == Some(EndingView::Discarded)
            &&& next.ending is None ==> next.reply <= index
            &&& step == StepView::Done ==> next.ending is Some
        }),
{
}

/// If any hook answers with the verdict to discard, the merging ends as
/// discarded and in no other way, whatever the other answers hold, as long
/// as neither the cache nor the store reports a failure.
pub proof fn lemma_discard_wins(
    view: FoldView,
    event: Option<HookEventView>,
    answers: Seq<HookEventView>,
    fuel: nat,
    index: int,
)
    requires
        view.ending is None,
        view.reply <= index,
        discards(view.replies, index),
        event is Some ==> !is_failure(event.unwrap()),
        forall|i: int| 0 <= i < answers.len() ==> !is_failure(#[trigger] answers[i]),
    ensures
        fold_result(fold_run(view, event, answers, fuel)) is None || fold_result(
            fold_run(view, event, answers, fuel),
        ) == Some(Ok::<Option<OutcomeView>, ErrorView>(None)),
    decreases fuel,
{
    if fuel > 0 {
        lemma_discard_step(view, event, index);
        let (next, step) = hook_step(view, event);
        match step {
            StepView::Done => {},
            StepView::Continue => {
                lemma_discard_wins(next, None, answers, (fuel - 1) as nat, index);
            },
            _ => {
                if answers.len() > 0 {
                    let rest = answers.skip(1);
                    assert forall|i: int| 0 <= i < rest.len() implies !is_failure(
                        #[trigger] rest[i],
                    ) by {
                        assert(rest[i] == answers[i + 1]);
                    }
                    lemma_discard_wins(next, Some(answers[0]), rest, (fuel - 1) as nat, index);
                }
            },
        }
    }
}

/// Where no hook discards and a failure for the time being is on record or
/// still to come, one step keeps it so, and the merging can only end with
/// that failure; unless the cache or the store reports a failure.
proof fn lemma_tempfail_step(view: FoldView, event: Option<HookEventView>, index: int)
    requires
        view.ending is None,
        forall|k: int| !discards(view.replies, k),
        view.should_tempfail || (view.reply <= index && tempfails(view.replies, index)),
        event is Some ==> !is_failure(event.unwrap()),
    ensures
        ({
            let (next, step) = hook_step(view, event);
            &&& next.replies == view.replies
            &&& next.ending is Some ==> next.ending == Some(EndingView::Failed(hook_tempfail()))
            &&& next.ending is None ==> next.should_tempfail || (next.reply <= index && tempfails(
                next.replies,
                index,
            ))
            &&& step == StepView::Done ==> next.ending is Some
        }),
{
    if view.opened && view.reply < view.replies.len() {
        assert(!discards(view.replies, view.reply as int));
    }
}

/// A failure for the time being goes before a failure for good: if no hook
/// discards and a hook that fails on error did not answer or rejected the
/// message, the merging ends with the failure for the time being and in no
/// other way, whatever hooks reject for good, as long as neither the cache
/// nor the store reports a failure.
pub proof fn lemma_tempfail_wins(
    view: FoldView,
    event: Option<HookEventView>,
    answers: Seq<HookEventView>,
    fuel: nat,
    index: int,
)
    requires
        view.ending is None,
        forall|k: int| !discards(view.replies, k),
        view.should_tempfail || (view.reply <= index && tempfails(view.replies, index)),
        event is Some ==> !is_failure(event.unwrap()),
        forall|i: int| 0 <= i < answers.len() ==> !is_failure(#[trigger] answers[i]),
    ensures
        fold_result(fold_run(view, event, answers, fuel)) is None || fold_result(
            fold_run(view, event, answers, fuel),
        ) == Some(Err::<Option<OutcomeView>, ErrorView>(hook_tempfail())),
    decreases fuel,
{
    if fuel > 0 {
        lemma_tempfail_step(view, event, index);
        let (next, step) = hook_step(view, event);
        match step {
            StepView::Done => {},
            StepView::Continue => {
                lemma_tempfail_wins(next, None, answers, (fuel - 1) as nat, index);
            },
            _ => {
                if answers.len() > 0 {
                    let rest = answers.skip(1);
                    assert forall|i: int| 0 <= i < rest.len() implies !is_failure(
                        #[trigger] rest[i],
                    ) by {
                        assert(rest[i] == answers[i + 1]);
                    }
                    lemma_tempfail_wins(next, Some(answers[0]), rest, (fuel - 1) as nat, index);
                }
            },
        }
    }
}

/// The view of what a merging came to.
pub open spec fn result_view(result: Option<Result<Option<HookOutcome>, DeliveryError>>) -> Option<
    Result<Option<OutcomeView>, ErrorView>,
> {
    match result {
        None => None,
        Some(Ok(Some(outcome))) => Some(Ok(Some(outcome@))),
        Some(Ok(None)) => Some(Ok(None)),
        Some(Err(error)) => Some(Err(error@)),
    }
}

/// The views of a list of answers.
pub open spec fn replies_view(replies: Seq<HookReply>) -> Seq<ReplyView> {
    replies.map_values(|r: HookReply| r@)
}

/// Where the merging goes on when a lookup finds nothing.
enum Fallback {
    Stage(Stage),
    NextModification,
}

/// The merging of the answers of the delivery hooks.
pub struct HookFold {
    replies: Vec<HookReply>,
    reply: usize,
    modification: usize,
    stage: Stage,
    asked: bool,
    opened: bool,
    mailbox_ids: Vec<u32>,
    flags: Vec<String>,
    skip_inbox: bool,
    modifications: Vec<HeaderModification>,
    should_tempfail: bool,
    should_permfail: bool,
    ending: Option<Ending>,
}

impl View for HookFold {
    type V = FoldView;

    closed spec fn view(&self) -> FoldView {
        FoldView {
            replies: replies_view(self.replies@),
            reply: self.reply as nat,
            modification: self.modification as nat,
            stage: self.stage,
            asked: self.asked,
            opened: self.opened,
            mailbox_ids: self.mailbox_ids@,
            flags: texts(self.flags@),
            skip_inbox: self.skip_inbox,
            modifications: self.modifications@.map_values(|m: HeaderModification| m@),
            should_tempfail: self.should_tempfail,
            should_permfail: self.should_permfail,
            ending: ending_view(self.ending),
        }
    }
}

/// Begins the merging of `replies`, the answers of the enabled hooks in
/// the order in which they came back, and says what to do first. Without
/// any answer the merging is done at once and changes nothing.
pub fn try_delivery_hook(replies: Vec<HookReply>) -> (begun: (HookFold, HookStep))
    ensures
        begun.0@ == fold_start(replies_view(replies@)),
        begun.1@ == first_step(replies_view(replies@)),
{
    let none = replies.len() == 0;
    let fold = HookFold {
        replies,
        reply: 0,
        modification: 0,
        stage: Stage::ById,
        asked: false,
        opened: false,
        mailbox_ids: Vec::new(),
        flags: Vec::new(),
        skip_inbox: false,
        modifications: Vec::new(),
        should_tempfail: false,
        should_permfail: false,
        ending: if none {
            Some(Ending::Complete)
        } else {
            None
        },
    };
    assert(fold@.flags =~= Seq::<Seq<char>>::empty());
    assert(fold@.modifications =~= Seq::<HeaderModificationView>::empty());
    let step = if none {
        HookStep::Done
    } else {
        HookStep::OpenCache
    };
    (fold, step)
}

impl HookFold {
    fn finish(&mut self, ending: Ending) -> (step: HookStep)
        ensures
            (final(self)@, step@) == ended(old(self)@, ending@),
    {
        self.ending = Some(ending);
        self.asked = false;
        HookStep::Done
    }

    fn to_next_modification(&mut self)
        requires
            old(self).modification < usize::MAX,
        ensures
            final(self)@ == next_modification(old(self)@),
    {
        self.modification = self.modification + 1;
        self.stage = Stage::ById;
        self.asked = false;
    }

    fn to_next_reply(&mut self)
        requires
            old(self).reply < usize::MAX,
        ensures
            final(self)@ == next_reply(old(self)@),
    {
        self.reply = self.reply + 1;
        self.modification = 0;
        self.stage = Stage::ById;
        self.asked = false;
    }

    fn to_stage(&mut self, stage: Stage)
        ensures
            final(self)@ == (FoldView { stage, asked: false, ..old(self)@ }),
    {
        self.stage = stage;
        self.asked = false;
    }

    fn file(&mut self, id: u32)
        requires
            old(self).modification < usize::MAX,
        ensures
            final(self)@ == filed(old(self)@, id),
    {
        add_id(&mut self.mailbox_ids, id);
        self.to_next_modification();
    }

    fn push_modification(&mut self, modification: HeaderModification)
        ensures
            final(self)@ == (FoldView {
                modifications: old(self)@.modifications.push(modification@),
                ..old(self)@
            }),
    {
        self.modifications.push(modification);
        assert(self@.modifications =~= old(self)@.modifications.push(modification@));
    }

    fn look_up(&mut self, event: Option<HookEvent>, lookup: MailboxLookup, fallback: Fallback) -> (step:
        HookStep)
        requires
            old(self).modification < usize::MAX,
        ensures
            (final(self)@, step@) == looked_up(
                old(self)@,
                event_view(event),
                lookup@,
                match fallback {
                    Fallback::Stage(stage) => FoldView { stage, asked: false, ..old(self)@ },
                    Fallback::NextModification => next_modification(old(self)@),
                },
            ),
    {
        if !self.asked {
            self.asked = true;
            return HookStep::Lookup(lookup);
        }
        match event {
            Some(HookEvent::Resolved(Ok(Some(id)))) => {
                self.file(id);
                HookStep::Continue
            },
            Some(HookEvent::Resolved(Ok(None))) => {
                match fallback {
                    Fallback::Stage(stage) => self.to_stage(stage),
                    Fallback::NextModification => self.to_next_modification(),
                }
                HookStep::Continue
            },
            Some(HookEvent::Resolved(Err(error))) => self.finish(Ending::Failed(error)),
            _ => HookStep::Lookup(lookup),
        }
    }

    fn file_into(
        &mut self,
        event: Option<HookEvent>,
        folder: String,
        mailbox_id: String,
        special_use: Option<String>,
        create: bool,
    ) -> (step: HookStep)
        requires
            old(self).modification < usize::MAX,
        ensures
            (final(self)@, step@) == file_into_step(
                old(self)@,
                event_view(event),
                folder@,
                mailbox_id@,
                option_text(special_use),
                create,
            ),
    {
        match self.stage {
            Stage::ById => {
                if mailbox_id.as_str().is_empty() {
                    self.to_stage(Stage::ByRole);
                    HookStep::Continue
                } else {
                    self.look_up(event, MailboxLookup::ById(mailbox_id), Fallback::Stage(Stage::ByRole))
                }
            },
            Stage::ByRole => match special_use {
                None => {
                    self.to_stage(Stage::ByPath);
                    HookStep::Continue
                },
                Some(role) => {
                    if str_eq_ignore_ascii_case(role.as_str(), "inbox") {
                        self.file(INBOX_ID);
                        HookStep::Continue
                    } else if str_eq_ignore_ascii_case(role.as_str(), "trash") {
                        self.file(TRASH_ID);
                        HookStep::Continue
                    } else {
                        self.look_up(
                            event,
                            MailboxLookup::ByRole(role),
                            Fallback::Stage(Stage::ByPath),
                        )
                    }
                },
            },
            Stage::ByPath => {
                let lookup = if create {
                    MailboxLookup::Create(folder)
                } else {
                    MailboxLookup::ByPath(folder)
                };
                self.look_up(event, lookup, Fallback::NextModification)
            },
        }
    }

    fn act(&mut self, tempfail_on_error: bool, action: Action) -> (step: HookStep)
        requires
            old(self).reply < usize::MAX,
        ensures
            (final(self)@, step@) == acted(old(self)@, tempfail_on_error, action),
    {
        match action {
            Action::Accept => {
                self.to_next_reply();
                HookStep::Continue
            },
            Action::Discard => self.finish(Ending::Discarded),
            Action::Quarantine => {
                self.push_modification(
                    HeaderModification::AddHeader {
                        name: "X-Quarantine".to_owned(),
                        value: "true".to_owned(),
                    },
                );
                self.to_next_reply();
                HookStep::Continue
            },
            Action::Reject => {
                if tempfail_on_error {
                    self.should_tempfail = true;
                } else {
                    self.should_permfail = true;
                }
                self.to_next_reply();
                HookStep::Continue
            },
        }
    }

    /// Takes in the answer to the step asked for last, if that step had
    /// one, and says what to do next.
    ///
    /// Once an answer of a hook with the verdict to discard has been taken
    /// in, the merging ends as discarded, whatever the other answers hold.
    /// At the end of all answers, a failure for the time being goes before
    /// a failure for good.
    pub fn advance(&mut self, event: Option<HookEvent>) -> (step: HookStep)
        ensures
            (final(self)@, step@) == hook_step(old(self)@, event_view(event)),
    {
        if self.ending.is_some() {
            return HookStep::Done;
        }
        if !self.opened {
            return match event {
                Some(HookEvent::CacheOpened(Ok(_))) => {
                    self.opened = true;
                    HookStep::Continue
                },
                Some(HookEvent::CacheOpened(Err(error))) => self.finish(Ending::Failed(error)),
                _ => HookStep::OpenCache,
            };
        }
        if self.reply >= self.replies.len() {
            let ending = if self.should_tempfail {
                Ending::Failed(
                    DeliveryError::MessageIngest {
                        code: Some(451),
                        reason: Some("Message temporarily rejected by delivery hook".to_owned()),
                    },
                )
            } else if self.should_permfail {
                Ending::Failed(
                    DeliveryError::MessageIngest {
                        code: Some(550),
                        reason: Some("Message rejected by delivery hook".to_owned()),
                    },
                )
            } else {
                Ending::Complete
            };
            return self.finish(ending);
        }
        let tempfail_on_error = self.replies[self.reply].tempfail_on_error;
        let ghost reply_view = self@.replies[self.reply as int];
        assert(reply_view == self.replies@[self.reply as int]@);
        match &self.replies[self.reply].outcome {
            Err(_) => {
                self.should_tempfail = self.should_tempfail || tempfail_on_error;
                self.to_next_reply();
                HookStep::Continue
            },
            Ok(response) => {
                if self.modification < response.modifications.len() {
                    assert(reply_view.response.unwrap().modifications[self.modification as int]
                        == response.modifications@[self.modification as int]@);
                    match &response.modifications[self.modification] {
                        Modification::FileInto { folder, mailbox_id, special_use, create, .. } => {
                            let folder = folder.clone();
                            let mailbox_id = mailbox_id.clone();
                            let special_use = match special_use {
                                Some(role) => Some(role.clone()),
                                None => None,
                            };
                            let create = *create;
                            self.file_into(event, folder, mailbox_id, special_use, create)
                        },
                        Modification::AddHeader { name, value } => {
                            let added = HeaderModification::AddHeader {
                                name: name.clone(),
                                value: value.clone(),
                            };
                            self.push_modification(added);
                            self.to_next_modification();
                            HookStep::Continue
                        },
                        Modification::ReplaceHeader { index, name, value } => {
                            let replaced = HeaderModification::ReplaceHeader {
                                index: *index,
                                name: name.clone(),
                                value: value.clone(),
                            };
                            self.push_modification(replaced);
                            self.to_next_modification();
                            HookStep::Continue
                        },
                    }
                } else {
                    let action = response.action;
                    self.skip_inbox = self.skip_inbox || response.skip_inbox;
                    add_texts(&mut self.flags, &response.flags);
                    self.act(tempfail_on_error, action)
                }
            },
        }
    }

    /// What the merging came to: `None` while it has not ended.
    pub fn into_result(self) -> (result: Option<Result<Option<HookOutcome>, DeliveryError>>)
        ensures
            result_view(result) == fold_result(self@),
    {
        match self.ending {
            None => None,
            Some(Ending::Complete) => Some(
                Ok(
                    Some(
                        HookOutcome {
                            mailbox_ids: self.mailbox_ids,
                            flags: self.flags,
                            skip_inbox: self.skip_inbox,
                            modifications: self.modifications,
                        },
                    ),
                ),
            ),
            Some(Ending::Discarded) => Some(Ok(None)),
            Some(Ending::Failed(error)) => Some(Err(error)),
        }
    }
}


/// Variable resolver for the enable expressions of delivery hooks:
/// delivery has no session context, so every variable is empty.
pub struct DeliveryResolver;

impl DeliveryResolver {
    /// The value of a session variable: always empty.
    pub fn resolve_variable(&self, variable: u32) -> (value: String)
        ensures
            value@.len() == 0,
    {
        String::new()
    }

    /// The value of a global variable: always empty.
    pub fn resolve_global(&self, variable: &str) -> (value: String)
        ensures
            value@.len() == 0,
    {
        String::new()
    }
}

/// The hooks to call: those whose enable expression came out true, by
/// their place in the list of hooks. An expression that could not be
/// evaluated counts as false.
pub open spec fn enabled(verdicts: Seq<Option<bool>>) -> Seq<usize>
    decreases verdicts.len(),
{
    if verdicts.len() == 0 {
        Seq::empty()
    } else if verdicts.last() == Some(true) {
        enabled(verdicts.drop_last()).push((verdicts.len() - 1) as usize)
    } else {
        enabled(verdicts.drop_last())
    }
}

/// Picks the hooks to call, given what the enable expression of each hook
/// came to.
pub fn enabled_hooks(verdicts: &Vec<Option<bool>>) -> (hooks: Vec<usize>)
    ensures
        hooks@ == enabled(verdicts@),
{
    let mut hooks: Vec<usize> = Vec::new();
    let mut i: usize = 0;
    assert(verdicts@.take(0) == Seq::<Option<bool>>::empty());
    while i < verdicts.len()
        invariant
            i <= verdicts@.len(),
            hooks@ == enabled(verdicts@.take(i as int)),
        decreases verdicts@.len() - i,
    {
        assert(verdicts@.take(i + 1).drop_last() == verdicts@.take(i as int));
        match verdicts[i] {
            Some(true) => {
                hooks.push(i);
            },
            _ => {},
        }
        i += 1;
    }
    assert(verdicts@.take(verdicts@.len() as int) == verdicts@);
    hooks
}

/// The headers of a message as a hook is shown them: a value that the MIME
/// parser does not read as text is shown as empty.
pub open spec fn shown_headers(headers: Seq<(Seq<char>, Option<Seq<char>>)>) -> Seq<
    (Seq<char>, Seq<char>),
> {
    headers.map_values(
        |h: (Seq<char>, Option<Seq<char>>)|
            (
                h.0,
                match h.1 {
                    Some(text) => text,
                    None => Seq::empty(),
                },
            ),
    )
}

/// The failure of a delivery to an account whose principal is not known.
pub open spec fn principal_missing() -> ErrorView {
    ErrorView::MessageIngest { code: None, reason: None }
}

/// The failure of a message that the MIME parser does not accept.
pub open spec fn unparseable() -> ErrorView {
    ErrorView::MessageIngest { code: Some(550), reason: Some("Failed to parse e-mail message."@) }
}

/// Fills in the request from what the MIME parser found in the message.
pub fn fill_hook_request(
    user_id: String,
    principal_name: String,
    sender: &str,
    recipient: &str,
    headers: Vec<(String, Option<String>)>,
    contents: String,
    size: usize,
) -> (request: Request)
    ensures
        request.user_id == user_id,
        request.principal_name == principal_name,
        request.envelope is Some,
        request.envelope.unwrap().from.address@ == sender@,
        request.envelope.unwrap().to.address@ == recipient@,
        request.message is Some,
        request.message.unwrap().headers.deep_view() == shown_headers(headers.deep_view()),
        request.message.unwrap().server_headers@.len() == 0,
        request.message.unwrap().contents == contents,
        request.message.unwrap().size == size,
{
    let mut shown: Vec<(String, String)> = Vec::new();
    let mut headers = headers;
    let ghost all = headers.deep_view();
    let mut i: usize = 0;
    while i < headers.len()
        invariant
            i <= headers@.len(),
            headers.deep_view() == all,
            shown@.len() == i,
            forall|k: int|
                0 <= k < i ==> (#[trigger] shown@[k]).0@ == all[k].0 && shown@[k].1@ == match all[k].1 {
                    Some(text) => text,
                    None => Seq::<char>::empty(),
                },
        decreases headers@.len() - i,
    {
        assert(all[i as int] == headers@[i as int].deep_view());
        let name = headers[i].0.clone();
        let value = match &headers[i].1 {
            Some(text) => text.clone(),
            None => String::new(),
        };
        shown.push((name, value));
        i += 1;
    }
    assert(shown.deep_view() =~= shown_headers(all)) by {
        assert(shown.deep_view().len() == shown_headers(all).len());
        assert forall|k: int| 0 <= k < shown@.len() implies shown.deep_view()[k] == shown_headers(
            all,
        )[k] by {
            assert(shown.deep_view()[k] == shown@[k].deep_view());
        }
    }
    let envelope = Envelope {
        from: Address { address: sender.to_owned() },
        to: Address { address: recipient.to_owned() },
    };
    let message = Message { headers: shown, server_headers: Vec::new(), contents, size };
    Request::new(user_id, principal_name).with_envelope(envelope).with_message(message)
}

/// Builds the request that every enabled hook is sent for one copy of a
/// message. There is none for an account without a principal, nor for a
/// message that the MIME parser does not accept.
pub fn build_hook_request(
    user_id: String,
    principal_name: Option<String>,
    sender: &str,
    recipient: &str,
    raw: &[u8],
) -> (request: Result<Request, DeliveryError>)
    ensures
        match request {
            Ok(r) => {
                &&& principal_name is Some
                &&& parsed_headers(raw@) is Some
                &&& r.user_id == user_id
                &&& r.principal_name == principal_name.unwrap()
                &&& r.envelope is Some
                &&& r.envelope.unwrap().from.address@ == sender@
                &&& r.envelope.unwrap().to.address@ == recipient@
                &&& r.message is Some
                &&& r.message.unwrap().headers.deep_view() == shown_headers(
                    parsed_headers(raw@).unwrap(),
                )
                &&& r.message.unwrap().server_headers@.len() == 0
                &&& r.message.unwrap().contents@ == utf8_lossy(raw@)
                &&& r.message.unwrap().size == raw@.len()
            },
            Err(error) => if principal_name is None {
                error@ == principal_missing()
            } else {
                parsed_headers(raw@) is None && error@ == unparseable()
            },
        },
{
    let principal_name = match principal_name {
        Some(name) => name,
        None => {
            return Err(DeliveryError::MessageIngest { code: None, reason: None });
        },
    };
    match parse_headers(raw) {
        Some(headers) => {
            let contents = decode_utf8_lossy(raw);
            Ok(
                fill_hook_request(
                    user_id,
                    principal_name,
                    sender,
                    recipient,
                    headers,
                    contents,
                    raw.len(),
                ),
            )
        },
        None => Err(
            DeliveryError::MessageIngest {
                code: Some(550),
                reason: Some("Failed to parse e-mail message.".to_owned()),
            },
        ),
    }
}

} // verus!
