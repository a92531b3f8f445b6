//! One request to a hook endpoint: what to do at each point of the
//! exchange, and the error that each failure is reported as.
//!
//! The HTTP client is not here. [`HookCall`] says what to do next and is
//! advanced with what came of it.

use hyper::StatusCode;
use vstd::prelude::*;
use vstd::string::StringExecFns;
use crate::bytes::append_bytes;
use crate::hook_config::DeliveryHook;
use crate::hooks::Response;

verus! {

/// The reason phrase that HTTP knows for a status code, if it knows one.
pub uninterp spec fn reason_phrase(code: u16) -> Option<Seq<char>>;

/// Calls `StatusCode::from_u16` and `StatusCode::canonical_reason` of the
/// `http` crate, which `hyper` hands on. Neither panics; the phrase depends
/// on the code alone and is named, not stated.
#[verifier::external_body]
pub(crate) fn canonical_reason(code: u16) -> (phrase: Option<String>)
    ensures
        phrase.deep_view() == reason_phrase(code),
{
    StatusCode::from_u16(code).ok().and_then(|status| status.canonical_reason()).map(
        |phrase| phrase.to_owned(),
    )
}

/// The decimal digit `d` as a character.
pub open spec fn digit_char(d: nat) -> char {
    if d == 0 {
        '0'
    } else if d == 1 {
        '1'
    } else if d == 2 {
        '2'
    } else if d == 3 {
        '3'
    } else if d == 4 {
        '4'
    } else if d == 5 {
        '5'
    } else if d == 6 {
        '6'
    } else if d == 7 {
        '7'
    } else if d == 8 {
        '8'
    } else {
        '9'
    }
}

/// `n` in decimal, without leading zeros.
pub open spec fn decimal(n: nat) -> Seq<char>
    decreases n,
{
    if n < 10 {
        seq![digit_char(n)]
    } else {
        decimal(n / 10).push(digit_char(n % 10))
    }
}

fn digit_text(d: u16) -> (text: &'static str)
    requires
        d < 10,
    ensures
        text@ == seq![digit_char(d as nat)],
{
    proof {
        reveal_strlit("0");
        reveal_strlit("1");
        reveal_strlit("2");
        reveal_strlit("3");
        reveal_strlit("4");
        reveal_strlit("5");
        reveal_strlit("6");
        reveal_strlit("7");
        reveal_strlit("8");
        reveal_strlit("9");
    }
    let text = if d == 0 {
        "0"
    } else if d == 1 {
        "1"
    } else if d == 2 {
        "2"
    } else if d == 3 {
        "3"
    } else if d == 4 {
        "4"
    } else if d == 5 {
        "5"
    } else if d == 6 {
        "6"
    } else if d == 7 {
        "7"
    } else if d == 8 {
        "8"
    } else {
        "9"
    };
    assert(text@ =~= seq![digit_char(d as nat)]);
    text
}

/// Writes `n` in decimal.
pub fn decimal_text(n: u16) -> (text: String)
    ensures
        text@ == decimal(n as nat),
    decreases n,
{
    if n < 10 {
        digit_text(n).to_owned()
    } else {
        let mut text = decimal_text(n / 10);
        text.append(digit_text(n % 10));
        assert(text@ =~= decimal((n / 10) as nat).push(digit_char((n % 10) as nat)));
        text
    }
}

/// Whether an HTTP status reports success: 200 to 299.
pub open spec fn is_success(status: u16) -> bool {
    200 <= status <= 299
}

/// Why a call of a hook gave no answer.
#[derive(Debug, Clone, PartialEq, Eq)]
pub enum CallFailure {
    /// The HTTP client could not be set up.
    Client(String),
    /// The request could not be written as JSON.
    Serialize(String),
    /// The request could not be sent, or timed out.
    Send(String),
    /// The endpoint answered with a status that is no success.
    Status(u16),
    /// The body of the response could not be read.
    Read(String),
    /// The body of the response is larger than the hook allows.
    TooLarge,
    /// The body of the response is not the JSON of an answer.
    Decode(String),
}

/// The text that a failure is reported as.
pub open spec fn failure_text(failure: CallFailure) -> Seq<char> {
    match failure {
        CallFailure::Client(error) => "Failed to create HTTP client: "@ + error@,
        CallFailure::Serialize(error) => "Failed to serialize delivery hook request: "@ + error@,
        CallFailure::Send(error) => "Delivery hook request failed: "@ + error@,
        CallFailure::Status(status) => "Delivery hook request failed with code "@ + decimal(
            status as nat,
        ) + ": "@ + match reason_phrase(status) {
            Some(phrase) => phrase,
            None => "Unknown"@,
        },
        CallFailure::Read(error) => "Failed to parse delivery hook response: "@ + error@,
        CallFailure::TooLarge => "Delivery hook response too large"@,
        CallFailure::Decode(error) => "Failed to parse delivery hook response: "@ + error@,
    }
}

/// The text of a failure, given the reason phrase of its status where it
/// has one.
pub open spec fn failure_text_with(failure: CallFailure, phrase: Option<Seq<char>>) -> Seq<char> {
    match failure {
        CallFailure::Status(status) => "Delivery hook request failed with code "@ + decimal(
            status as nat,
        ) + ": "@ + match phrase {
            Some(text) => text,
            None => "Unknown"@,
        },
        _ => failure_text(failure),
    }
}

/// Writes the text of a failure, given the reason phrase of its status.
pub fn describe_failure(failure: &CallFailure, phrase: Option<String>) -> (message: String)
    ensures
        message@ == failure_text_with(*failure, phrase.deep_view()),
{
    match failure {
        CallFailure::Client(error) => {
            let mut message = "Failed to create HTTP client: ".to_owned();
            message.append(error.as_str());
            message
        },
        CallFailure::Serialize(error) => {
            let mut message = "Failed to serialize delivery hook request: ".to_owned();
            message.append(error.as_str());
            message
        },
        CallFailure::Send(error) => {
            let mut message = "Delivery hook request failed: ".to_owned();
            message.append(error.as_str());
            message
        },
        CallFailure::Status(status) => {
            let mut message = "Delivery hook request failed with code ".to_owned();
            message.append(decimal_text(*status).as_str());
            message.append(": ");
            match phrase {
                Some(text) => message.append(text.as_str()),
                None => message.append("Unknown"),
            }
            message
        },
        CallFailure::Read(error) => {
            let mut message = "Failed to parse delivery hook response: ".to_owned();
            message.append(error.as_str());
            message
        },
        CallFailure::TooLarge => "Delivery hook response too large".to_owned(),
        CallFailure::Decode(error) => {
            let mut message = "Failed to parse delivery hook response: ".to_owned();
            message.append(error.as_str());
            message
        },
    }
}

/// Writes the text that a failure is reported as.
pub fn failure_message(failure: &CallFailure) -> (message: String)
    ensures
        message@ == failure_text(*failure),
{
    let phrase = match failure {
        CallFailure::Status(status) => canonical_reason(*status),
        _ => None,
    };
    describe_failure(failure, phrase)
}

/// What a call asks for next.
#[derive(Debug)]
pub enum CallStep {
    /// Send the request as JSON to the hook's URL, with the hook's
    /// headers, timeout and certificate policy.
    Post,
    /// Read the next chunk of the body of the response.
    ReadChunk,
    /// Read the body as the JSON of an answer.
    Decode { body: Vec<u8> },
    /// The call has ended.
    Done(Result<Response, String>),
}

/// What came of a step.
#[derive(Debug)]
pub enum CallEvent {
    /// `Post` failed before any response.
    NotSent(CallFailure),
    /// `Post` brought a response with this status.
    Status(u16),
    /// `ReadChunk` failed.
    NotRead(String),
    /// `ReadChunk` brought the next chunk of the body; `None` at its end.
    Chunk(Option<Vec<u8>>),
    /// `Decode` brought an answer, or did not.
    Decoded(Result<Response, String>),
}

/// Where a call stands.
#[derive(Debug, Clone, Copy, PartialEq, Eq, Structural)]
pub enum CallStage {
    Sending,
    Reading,
    Decoding,
    Ended,
}

/// A call as contracts see it.
pub struct CallView {
    pub stage: CallStage,
    /// The most bytes that the body of the response may have.
    pub limit: usize,
    /// What was read of the body so far.
    pub body: Seq<u8>,
}

/// A step as contracts see it.
pub enum CallStepView {
    Post,
    ReadChunk,
    Decode { body: Seq<u8> },
    Done(Result<Response, Seq<char>>),
}

impl View for CallStep {
    type V = CallStepView;

    open spec fn view(&self) -> CallStepView {
        match *self {
            CallStep::Post => CallStepView::Post,
            CallStep::ReadChunk => CallStepView::ReadChunk,
            CallStep::Decode { body } => CallStepView::Decode { body: body@ },
            CallStep::Done(Ok(response)) => CallStepView::Done(Ok(response)),
            CallStep::Done(Err(message)) => CallStepView::Done(Err(message@)),
        }
    }
}

/// A call that ended, with what it came to.
pub open spec fn call_ended(view: CallView, result: Result<Response, Seq<char>>) -> (
    CallView,
    CallStepView,
) {
    (CallView { stage: CallStage::Ended, body: Seq::empty(), ..view }, CallStepView::Done(result))
}

/// The call after `event`, and what it asks for. There is one request and
/// no second try: every failure ends the call, and so does an event that
/// does not answer the step asked for last. A body of more bytes than the
/// limit is a failure as soon as the chunk that passes the limit is read.
pub open spec fn call_step(view: CallView, event: CallEvent) -> (CallView, CallStepView) {
    match (view.stage, event) {
        (CallStage::Sending, CallEvent::NotSent(failure)) => call_ended(
            view,
            Err(failure_text(failure)),
        ),
        (CallStage::Sending, CallEvent::Status(status)) => {
            if is_success(status) {
                (CallView { stage: CallStage::Reading, ..view }, CallStepView::ReadChunk)
            } else {
                call_ended(view, Err(failure_text(CallFailure::Status(status))))
            }
        },
        (CallStage::Reading, CallEvent::NotRead(error)) => call_ended(
            view,
            Err(failure_text(CallFailure::Read(error))),
        ),
        (CallStage::Reading, CallEvent::Chunk(Some(chunk))) => {
            if view.body.len() + chunk@.len() > view.limit {
                call_ended(view, Err(failure_text(CallFailure::TooLarge)))
            } else {
                (CallView { body: view.body + chunk@, ..view }, CallStepView::ReadChunk)
            }
        },
        (CallStage::Reading, CallEvent::Chunk(None)) => (
            CallView { stage: CallStage::Decoding, body: Seq::empty(), ..view },
            CallStepView::Decode { body: view.body },
        ),
        (CallStage::Decoding, CallEvent::Decoded(Ok(response))) => call_ended(view, Ok(response)),
        (CallStage::Decoding, CallEvent::Decoded(Err(error))) => call_ended(
            view,
            Err(failure_text(CallFailure::Decode(error))),
        ),
        _ => call_ended(view, Err("Delivery hook request failed: unexpected event"@)),
    }
}

/// The call at its start.
pub open spec fn call_start(limit: usize) -> CallView {
    CallView { stage: CallStage::Sending, limit, body: Seq::empty() }
}

/// One call of a hook.
pub struct HookCall {
    stage: CallStage,
    limit: usize,
    body: Vec<u8>,
}

impl View for HookCall {
    type V = CallView;

    closed spec fn view(&self) -> CallView {
        CallView { stage: self.stage, limit: self.limit, body: self.body@ }
    }
}

impl HookCall {
    fn end(&mut self, result: Result<Response, String>) -> (step: CallStep)
        ensures
            (final(self)@, step@) == call_ended(
                old(self)@,
                match result {
                    Ok(response) => Ok(response),
                    Err(message) => Err(message@),
                },
            ),
    {
        self.stage = CallStage::Ended;
        self.body = Vec::new();
        CallStep::Done(result)
    }

    /// Takes in what came of the step asked for last and says what to do
    /// next.
    pub fn advance(&mut self, event: CallEvent) -> (step: CallStep)
        ensures
            (final(self)@, step@) == call_step(old(self)@, event),
    {
        match (self.stage, event) {
            (CallStage::Sending, CallEvent::NotSent(failure)) => {
                let message = failure_message(&failure);
                self.end(Err(message))
            },
            (CallStage::Sending, CallEvent::Status(status)) => {
                if 200 <= status && status <= 299 {
                    self.stage = CallStage::Reading;
                    CallStep::ReadChunk
                } else {
                    let message = failure_message(&CallFailure::Status(status));
                    self.end(Err(message))
                }
            },
            (CallStage::Reading, CallEvent::NotRead(error)) => {
                let message = failure_message(&CallFailure::Read(error));
                self.end(Err(message))
            },
            (CallStage::Reading, CallEvent::Chunk(Some(chunk))) => {
                if self.body.len() > self.limit || chunk.len() > self.limit - self.body.len() {
                    let message = failure_message(&CallFailure::TooLarge);
                    self.end(Err(message))
                } else {
                    append_bytes(&mut self.body, chunk.as_slice());
                    CallStep::ReadChunk
                }
            },
            (CallStage::Reading, CallEvent::Chunk(None)) => {
                let mut body: Vec<u8> = Vec::new();
                std::mem::swap(&mut self.body, &mut body);
                self.stage = CallStage::Decoding;
                CallStep::Decode { body }
            },
            (CallStage::Decoding, CallEvent::Decoded(Ok(response))) => self.end(Ok(response)),
            (CallStage::Decoding, CallEvent::Decoded(Err(error))) => {
                let message = failure_message(&CallFailure::Decode(error));
                self.end(Err(message))
            },
            _ => self.end(Err("Delivery hook request failed: unexpected event".to_owned())),
        }
    }
}

/// Begins one call of `hook`. The first step is always `Post`.
pub fn send_delivery_hook_request(hook: &DeliveryHook) -> (begun: (HookCall, CallStep))
    ensures
        begun.0@ == call_start(hook.max_response_size),
        begun.1 is Post,
{
    (
        HookCall { stage: CallStage::Sending, limit: hook.max_response_size, body: Vec::new() },
        CallStep::Post,
    )
}

} // verus!
