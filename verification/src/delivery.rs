//! Local delivery of one message to its recipients: the status of each
//! recipient, the mailboxes and keywords a copy is stored with, and the
//! bytes that are stored.

use vstd::prelude::*;
use crate::bytes::option_bytes;
use crate::hooks::HeaderModification;
use crate::keyword::{add_flags, filing_target, keywords_view, with_flags, Keyword, KeywordView};
use crate::text::texts;
use crate::mailbox::{
    add_id, add_ids, has_id, lemma_with_id, lemma_without_id, remove_id, with_id, with_ids,
    without_id, INBOX_ID,
};
use crate::parser::{is_parseable, message_parses};
use crate::rewrite::{
    added_lines, apply_add_header_modifications, apply_replace_header_modifications,
    pairs_as_bytes, replaced_message, replacements_as_bytes,
};

verus! {

/// What became of the message for one recipient.
#[derive(Debug, PartialEq, Eq)]
pub enum LocalDeliveryStatus {
    Success,
    TemporaryFailure { reason: String },
    PermanentFailure { code: [u8; 3], reason: String },
}

/// A status, its texts as character sequences.
pub enum StatusView {
    Success,
    TemporaryFailure { reason: Seq<char> },
    PermanentFailure { code: Seq<u8>, reason: Seq<char> },
}

impl View for LocalDeliveryStatus {
    type V = StatusView;

    open spec fn view(&self) -> StatusView {
        match *self {
            LocalDeliveryStatus::Success => StatusView::Success,
            LocalDeliveryStatus::TemporaryFailure { reason } => StatusView::TemporaryFailure {
                reason: reason@,
            },
            LocalDeliveryStatus::PermanentFailure { code, reason } => StatusView::PermanentFailure {
                code: code@,
                reason: reason@,
            },
        }
    }
}

impl Clone for LocalDeliveryStatus {
    fn clone(&self) -> (copy: Self)
        ensures
            copy@ == self@,
    {
        match self {
            LocalDeliveryStatus::Success => LocalDeliveryStatus::Success,
            LocalDeliveryStatus::TemporaryFailure { reason } => {
                LocalDeliveryStatus::TemporaryFailure { reason: reason.clone() }
            },
            LocalDeliveryStatus::PermanentFailure { code, reason } => {
                LocalDeliveryStatus::PermanentFailure { code: *code, reason: reason.clone() }
            },
        }
    }
}

/// The statuses of a list, each by its view.
pub open spec fn statuses_view(statuses: Seq<LocalDeliveryStatus>) -> Seq<StatusView> {
    statuses.map_values(|s: LocalDeliveryStatus| s@)
}

/// A message that the filter script produced on its own account.
#[derive(Debug, Clone)]
pub struct AutogeneratedMessage {
    pub sender_address: String,
    pub recipients: Vec<String>,
    pub message: Vec<u8>,
}

/// Outcome of one delivery: one status per recipient, in recipient order.
#[derive(Debug)]
pub struct LocalDeliveryResult {
    pub status: Vec<LocalDeliveryStatus>,
    pub autogenerated: Vec<AutogeneratedMessage>,
}

/// One recipient of the message.
#[derive(Debug, Clone)]
pub struct Recipient {
    pub address: String,
    pub is_spam: bool,
}

/// A message that the SMTP side accepted and staged for local delivery.
#[derive(Debug, Clone)]
pub struct IngestMessage {
    pub sender_address: String,
    pub sender_authenticated: bool,
    pub recipients: Vec<Recipient>,
    pub message_blob: Vec<u8>,
    pub message_size: u64,
    pub session_id: u64,
}

/// What the store reports of a message it took in. `change_id == u64::MAX`
/// says that nothing was stored.
#[derive(Debug, Clone, PartialEq, Eq)]
pub struct IngestedEmail {
    pub document_id: u64,
    pub thread_id: u64,
    pub change_id: u64,
    pub blob_id: Vec<u8>,
    pub size: usize,
    pub imap_uids: Vec<(u32, u32)>,
}

impl IngestedEmail {
    /// The report of a message of `size` bytes that was not stored.
    pub fn not_ingested(size: usize) -> (email: Self)
        ensures
            email.change_id == u64::MAX,
            email.document_id == 0,
            email.thread_id == 0,
            email.size == size,
            email.blob_id@.len() == 0,
            email.imap_uids@.len() == 0,
    {
        IngestedEmail {
            document_id: 0,
            thread_id: 0,
            change_id: u64::MAX,
            blob_id: Vec::new(),
            size,
            imap_uids: Vec::new(),
        }
    }

    /// Whether the message was stored, so that clients are to be told.
    pub fn was_ingested(&self) -> (r: bool)
        ensures
            r == (self.change_id != u64::MAX),
    {
        self.change_id != u64::MAX
    }
}

/// Why a delivery to one recipient failed.
#[derive(Debug, Clone, PartialEq, Eq)]
pub enum DeliveryError {
    /// The mailbox is over its quota.
    Quota,
    /// The organization is over its quota.
    TenantQuota,
    /// The account may not receive mail.
    Unauthorized,
    /// The message was refused, with an SMTP reply code and a reason.
    MessageIngest { code: Option<u64>, reason: Option<String> },
    /// Anything else.
    Other { details: String },
}

/// A delivery error, its texts as character sequences.
pub enum ErrorView {
    Quota,
    TenantQuota,
    Unauthorized,
    MessageIngest { code: Option<u64>, reason: Option<Seq<char>> },
    Other { details: Seq<char> },
}

impl View for DeliveryError {
    type V = ErrorView;

    open spec fn view(&self) -> ErrorView {
        match *self {
            DeliveryError::Quota => ErrorView::Quota,
            DeliveryError::TenantQuota => ErrorView::TenantQuota,
            DeliveryError::Unauthorized => ErrorView::Unauthorized,
            DeliveryError::MessageIngest { code, reason } => ErrorView::MessageIngest {
                code,
                reason: match reason {
                    Some(text) => Some(text@),
                    None => None,
                },
            },
            DeliveryError::Other { details } => ErrorView::Other { details: details@ },
        }
    }
}

/// The three digits of an SMTP reply code: hundreds, tens, units.
pub open spec fn code_digits(code: u64) -> Seq<u8> {
    seq![(code / 100) as u8, ((code % 100) / 10) as u8, (code % 10) as u8]
}

/// The status that an error leaves a recipient with.
pub open spec fn status_of_error(error: ErrorView) -> StatusView {
    match error {
        ErrorView::Quota => StatusView::TemporaryFailure { reason: "Mailbox over quota."@ },
        ErrorView::TenantQuota => StatusView::TemporaryFailure {
            reason: "Organization over quota."@,
        },
        ErrorView::Unauthorized => StatusView::PermanentFailure {
            code: seq![5u8, 5u8, 0u8],
            reason: "This account is not authorized to receive email."@,
        },
        ErrorView::MessageIngest { code, reason } => StatusView::PermanentFailure {
            code: match code {
                Some(n) => code_digits(n),
                None => seq![5u8, 5u8, 0u8],
            },
            reason: match reason {
                Some(text) => text,
                None => Seq::empty(),
            },
        },
        ErrorView::Other { .. } => StatusView::TemporaryFailure {
            reason: "Transient server failure."@,
        },
    }
}

/// Splits an SMTP reply code into its three digits.
pub fn split_code(code: u64) -> (digits: [u8; 3])
    ensures
        digits@ == code_digits(code),
        code < 1000 ==> digits@ == seq![
            (code / 100) as u8,
            ((code / 10) % 10) as u8,
            (code % 10) as u8,
        ] && digits[0] < 10 && digits[1] < 10 && digits[2] < 10,
{
    let hundreds = #[verifier::truncate]
    ((code / 100) as u8);
    let tens = ((code % 100) / 10) as u8;
    let units = (code % 10) as u8;
    let digits = [hundreds, tens, units];
    assert(digits@ =~= code_digits(code));
    digits
}

/// Maps the failure of a delivery to the status of its recipient.
pub fn classify_error(error: &DeliveryError) -> (status: LocalDeliveryStatus)
    ensures
        status@ == status_of_error(error@),
{
    match error {
        DeliveryError::Quota => LocalDeliveryStatus::TemporaryFailure {
            reason: "Mailbox over quota.".to_owned(),
        },
        DeliveryError::TenantQuota => LocalDeliveryStatus::TemporaryFailure {
            reason: "Organization over quota.".to_owned(),
        },
        DeliveryError::Unauthorized => {
            let code = [5u8, 5u8, 0u8];
            assert(code@ =~= seq![5u8, 5u8, 0u8]);
            LocalDeliveryStatus::PermanentFailure {
                code,
                reason: "This account is not authorized to receive email.".to_owned(),
            }
        },
        DeliveryError::MessageIngest { code, reason } => {
            let digits = match code {
                Some(n) => split_code(*n),
                None => {
                    let code = [5u8, 5u8, 0u8];
                    assert(code@ =~= seq![5u8, 5u8, 0u8]);
                    code
                },
            };
            let text = match reason {
                Some(text) => text.clone(),
                None => String::new(),
            };
            LocalDeliveryStatus::PermanentFailure { code: digits, reason: text }
        },
        DeliveryError::Other { .. } => LocalDeliveryStatus::TemporaryFailure {
            reason: "Transient server failure.".to_owned(),
        },
    }
}

/// The mailbox list after a keyword files the message into `target`: the
/// inbox gives way to the target, which is added where it is missing.
pub open spec fn filed_into(ids: Seq<u32>, target: u32) -> Seq<u32> {
    if ids == seq![INBOX_ID] {
        seq![target]
    } else if ids.contains(INBOX_ID) {
        with_id(without_id(ids, INBOX_ID), target)
    } else {
        with_id(ids, target)
    }
}

/// The mailbox list after each keyword that files has filed, in the order
/// of the keywords.
pub open spec fn filed_by_keywords(ids: Seq<u32>, keywords: Seq<KeywordView>) -> Seq<u32>
    decreases keywords.len(),
{
    if keywords.len() == 0 {
        ids
    } else {
        let before = filed_by_keywords(ids, keywords.drop_last());
        match filing_target(keywords.last()) {
            Some(target) => filed_into(before, target),
            None => before,
        }
    }
}

/// Filing into a mailbox other than the inbox leaves a list that holds the
/// target and not the inbox, and keeps every other mailbox it held.
pub proof fn lemma_filed_into(ids: Seq<u32>, target: u32)
    requires
        target != INBOX_ID,
    ensures
        filed_into(ids, target).contains(target),
        !ids.contains(INBOX_ID) || !filed_into(ids, target).contains(INBOX_ID),
        forall|x: u32| x != INBOX_ID && ids.contains(x) ==> filed_into(ids, target).contains(x),
        forall|x: u32| filed_into(ids, target).contains(x) ==> x == target || ids.contains(x),
{
    let out = filed_into(ids, target);
    if ids == seq![INBOX_ID] {
        assert(out[0] == target);
        assert forall|x: u32| x != INBOX_ID && ids.contains(x) implies out.contains(x) by {
            let k = choose|k: int| 0 <= k < ids.len() && ids[k] == x;
        }
        assert forall|x: u32| out.contains(x) implies x == target || ids.contains(x) by {
            let k = choose|k: int| 0 <= k < out.len() && out[k] == x;
        }
    } else if ids.contains(INBOX_ID) {
        lemma_without_id(ids, INBOX_ID);
        lemma_with_id(without_id(ids, INBOX_ID), target);
    } else {
        lemma_with_id(ids, target);
    }
}

/// After filing by keywords, the list holds the mailbox of each keyword
/// that files; and where any keyword files, it does not hold the inbox,
/// whether or not it held it before.
pub proof fn lemma_filing_leaves_inbox(ids: Seq<u32>, keywords: Seq<KeywordView>)
    ensures
        forall|k: int|
            0 <= k < keywords.len() && filing_target(#[trigger] keywords[k]) is Some ==> {
                &&& filed_by_keywords(ids, keywords).contains(filing_target(keywords[k]).unwrap())
                &&& !filed_by_keywords(ids, keywords).contains(INBOX_ID)
            },
    decreases keywords.len(),
{
    if keywords.len() > 0 {
        let front = keywords.drop_last();
        let before = filed_by_keywords(ids, front);
        let out = filed_by_keywords(ids, keywords);
        lemma_filing_leaves_inbox(ids, front);
        match filing_target(keywords.last()) {
            Some(target) => {
                lemma_filed_into(before, target);
                assert forall|k: int|
                    0 <= k < keywords.len() && filing_target(
                        #[trigger] keywords[k],
                    ) is Some implies out.contains(filing_target(keywords[k]).unwrap())
                    && !out.contains(INBOX_ID) by {
                    if k < front.len() {
                        assert(front[k] == keywords[k]);
                    }
                    if out.contains(INBOX_ID) {
                        assert(before.contains(INBOX_ID));
                    }
                }
            },
            None => {
                assert forall|k: int|
                    0 <= k < keywords.len() && filing_target(
                        #[trigger] keywords[k],
                    ) is Some implies out.contains(filing_target(keywords[k]).unwrap())
                    && !out.contains(INBOX_ID) by {
                    assert(front[k] == keywords[k]);
                }
            },
        }
    }
}

/// Files by one keyword's mailbox.
pub fn file_into(ids: &mut Vec<u32>, target: u32)
    ensures
        final(ids)@ == filed_into(old(ids)@, target),
{
    if ids.len() == 1 && ids[0] == INBOX_ID {
        assert(ids@ =~= seq![INBOX_ID]);
        let mut only: Vec<u32> = Vec::new();
        only.push(target);
        *ids = only;
        assert(ids@ =~= seq![target]);
    } else {
        assert(ids@ != seq![INBOX_ID]) by {
            if ids@ == seq![INBOX_ID] {
                assert(ids@.len() == 1 && ids@[0] == INBOX_ID);
            }
        }
        if has_id(ids, INBOX_ID) {
            remove_id(ids, INBOX_ID);
        }
        add_id(ids, target);
    }
}

/// Files by each keyword that has a mailbox of its own.
pub fn file_by_keywords(ids: &mut Vec<u32>, keywords: &Vec<Keyword>)
    ensures
        final(ids)@ == filed_by_keywords(old(ids)@, keywords_view(keywords@)),
{
    let ghost all = keywords_view(keywords@);
    let mut i: usize = 0;
    assert(all.take(0) == Seq::<KeywordView>::empty());
    while i < keywords.len()
        invariant
            i <= keywords@.len(),
            all == keywords_view(keywords@),
            ids@ == filed_by_keywords(old(ids)@, all.take(i as int)),
        decreases keywords@.len() - i,
    {
        assert(all.take(i + 1).drop_last() == all.take(i as int));
        assert(all.take(i + 1).last() == keywords@[i as int]@);
        match keywords[i].target() {
            Some(target) => file_into(ids, target),
            None => {},
        }
        i += 1;
    }
    assert(all.take(all.len() as int) == all);
}

/// The mailboxes of a copy once a hook has had its say: those it had, those
/// the hook names, and without the inbox where the hook says so.
pub open spec fn merged_mailboxes(ids: Seq<u32>, hook_ids: Seq<u32>, skip_inbox: bool) -> Seq<u32> {
    let all = with_ids(ids, hook_ids);
    if skip_inbox {
        without_id(all, INBOX_ID)
    } else {
        all
    }
}

/// What the hooks decided for one copy of a message.
#[derive(Debug, Clone)]
pub struct HookOutcome {
    /// Mailboxes to file into.
    pub mailbox_ids: Vec<u32>,
    /// Flags to set.
    pub flags: Vec<String>,
    /// Whether the copy is to stay out of the inbox.
    pub skip_inbox: bool,
    /// Header changes, in the order in which they were asked for.
    pub modifications: Vec<HeaderModification>,
}

/// Settles where a copy goes and which keywords it carries: the hook's
/// mailboxes and flags are merged in, then each keyword that has a mailbox
/// of its own files the copy there.
pub fn settle_filing(mailbox_ids: &mut Vec<u32>, keywords: &mut Vec<Keyword>, outcome: &HookOutcome)
    ensures
        keywords_view(final(keywords)@) == with_flags(
            keywords_view(old(keywords)@),
            texts(outcome.flags@),
        ),
        final(mailbox_ids)@ == filed_by_keywords(
            merged_mailboxes(old(mailbox_ids)@, outcome.mailbox_ids@, outcome.skip_inbox),
            keywords_view(final(keywords)@),
        ),
{
    add_ids(mailbox_ids, &outcome.mailbox_ids);
    add_flags(keywords, &outcome.flags);
    if outcome.skip_inbox {
        remove_id(mailbox_ids, INBOX_ID);
    }
    file_by_keywords(mailbox_ids, keywords);
}

/// The headers that `modifications` add, in order.
pub open spec fn additions(modifications: Seq<HeaderModification>) -> Seq<(String, String)>
    decreases modifications.len(),
{
    if modifications.len() == 0 {
        Seq::empty()
    } else {
        let front = additions(modifications.drop_last());
        match modifications.last() {
            HeaderModification::AddHeader { name, value } => front.push((name, value)),
            HeaderModification::ReplaceHeader { .. } => front,
        }
    }
}

/// The replacements that `modifications` ask for, in order.
pub open spec fn replacements(modifications: Seq<HeaderModification>) -> Seq<(u32, String, String)>
    decreases modifications.len(),
{
    if modifications.len() == 0 {
        Seq::empty()
    } else {
        let front = replacements(modifications.drop_last());
        match modifications.last() {
            HeaderModification::AddHeader { .. } => front,
            HeaderModification::ReplaceHeader { index, name, value } => front.push(
                (index, name, value),
            ),
        }
    }
}

/// The message with `modifications` applied: first every added header, in
/// front, then every replacement. `None` where nothing changed: no header
/// was added and no replacement found its header.
pub open spec fn rewritten(modifications: Seq<HeaderModification>, raw: Seq<u8>) -> Option<
    Seq<u8>,
> {
    let adds = pairs_as_bytes(additions(modifications));
    let with_adds = if adds.len() > 0 {
        added_lines(adds) + raw
    } else {
        raw
    };
    match replaced_message(replacements_as_bytes(replacements(modifications)), with_adds) {
        Some(out) => Some(out),
        None => if adds.len() > 0 {
            Some(with_adds)
        } else {
            None
        },
    }
}

/// Applies the header changes of a hook to a raw message; `None` where
/// nothing changed.
pub fn propose_rewrite(
    raw: &[u8],
    modifications: &Vec<HeaderModification>,
    session_id: u64,
) -> (out: Option<Vec<u8>>)
    ensures
        option_bytes(out) == rewritten(modifications@, raw@),
{
    let mut adds: Vec<(String, String)> = Vec::new();
    let mut reps: Vec<(u32, String, String)> = Vec::new();
    let mut i: usize = 0;
    assert(modifications@.take(0) == Seq::<HeaderModification>::empty());
    while i < modifications.len()
        invariant
            i <= modifications@.len(),
            adds@ == additions(modifications@.take(i as int)),
            reps@ == replacements(modifications@.take(i as int)),
        decreases modifications@.len() - i,
    {
        assert(modifications@.take(i + 1).drop_last() == modifications@.take(i as int));
        match &modifications[i] {
            HeaderModification::AddHeader { name, value } => {
                adds.push((name.clone(), value.clone()));
            },
            HeaderModification::ReplaceHeader { index, name, value } => {
                reps.push((*index, name.clone(), value.clone()));
            },
        }
        i += 1;
    }
    assert(modifications@.take(modifications@.len() as int) == modifications@);
    if adds.len() > 0 {
        let with_adds = apply_add_header_modifications(adds.as_slice(), raw);
        match apply_replace_header_modifications(reps.as_slice(), with_adds.as_slice(), session_id) {
            Some(out) => Some(out),
            None => Some(with_adds),
        }
    } else {
        assert(pairs_as_bytes(adds@).len() == 0);
        apply_replace_header_modifications(reps.as_slice(), raw, session_id)
    }
}

/// The bytes to store: the rewritten message where there is one and the
/// MIME parser accepts it; `None`, for the message as it was, otherwise.
pub fn accept_rewrite(candidate: Option<Vec<u8>>, parses: bool) -> (out: Option<Vec<u8>>)
    ensures
        out == if parses {
            candidate
        } else {
            None
        },
{
    if parses {
        candidate
    } else {
        None
    }
}

/// Applies the header changes of a hook and checks the result with the
/// MIME parser. Returns the rewritten message, or `None` where the message
/// is to be stored as it was: because nothing changed, or because the
/// parser does not accept what the changes made of it.
pub fn rewrite_message(raw: &[u8], modifications: &Vec<HeaderModification>, session_id: u64) -> (out:
    Option<Vec<u8>>)
    ensures
        option_bytes(out) == match rewritten(modifications@, raw@) {
            Some(bytes) => if message_parses(bytes) {
                Some(bytes)
            } else {
                None
            },
            None => None,
        },
{
    match propose_rewrite(raw, modifications, session_id) {
        Some(candidate) => {
            let parses = is_parseable(candidate.as_slice());
            accept_rewrite(Some(candidate), parses)
        },
        None => None,
    }
}

} // verus!
