use local_delivery::client::{
    decimal_text, describe_failure, failure_message, send_delivery_hook_request, CallEvent,
    CallFailure, CallStep,
};
use local_delivery::hook_config::{parse_delivery_hooks, DeliveryHook, HookSettings};
use local_delivery::hooks::{Action, Response};

fn hook(limit: usize) -> DeliveryHook {
    parse_delivery_hooks(
        &HookSettings {
            url: Some("https://x".to_string()),
            timeout_ms: None,
            allow_invalid_certs: None,
            tempfail_on_error: None,
            max_response_size: Some(limit),
            headers: vec![],
            auth_username: None,
            auth_secret: None,
            enable: None,
        },
        "h",
    )
    .unwrap()
}

fn done(step: CallStep) -> Result<Response, String> {
    match step {
        CallStep::Done(result) => result,
        other => panic!("{:?}", other),
    }
}

#[test]
fn numbers_are_written_in_decimal() {
    assert_eq!(decimal_text(0), "0");
    assert_eq!(decimal_text(7), "7");
    assert_eq!(decimal_text(404), "404");
    assert_eq!(decimal_text(1000), "1000");
    assert_eq!(decimal_text(u16::MAX), "65535");
}

#[test]
fn failures_have_their_messages() {
    assert_eq!(
        failure_message(&CallFailure::Client("no tls".to_string())),
        "Failed to create HTTP client: no tls"
    );
    assert_eq!(
        failure_message(&CallFailure::Serialize("bad".to_string())),
        "Failed to serialize delivery hook request: bad"
    );
    assert_eq!(
        failure_message(&CallFailure::Send("timed out".to_string())),
        "Delivery hook request failed: timed out"
    );
    assert_eq!(
        failure_message(&CallFailure::Status(404)),
        "Delivery hook request failed with code 404: Not Found"
    );
    assert_eq!(
        failure_message(&CallFailure::Status(500)),
        "Delivery hook request failed with code 500: Internal Server Error"
    );
    assert_eq!(
        failure_message(&CallFailure::Status(299)),
        "Delivery hook request failed with code 299: Unknown"
    );
    assert_eq!(
        failure_message(&CallFailure::Status(7)),
        "Delivery hook request failed with code 7: Unknown"
    );
    assert_eq!(
        failure_message(&CallFailure::Read("reset".to_string())),
        "Failed to parse delivery hook response: reset"
    );
    assert_eq!(failure_message(&CallFailure::TooLarge), "Delivery hook response too large");
    assert_eq!(
        failure_message(&CallFailure::Decode("eof".to_string())),
        "Failed to parse delivery hook response: eof"
    );
    assert_eq!(
        describe_failure(&CallFailure::Status(200), Some("Fine".to_string())),
        "Delivery hook request failed with code 200: Fine"
    );
}

#[test]
fn a_call_that_goes_well() {
    let (mut call, step) = send_delivery_hook_request(&hook(1000));
    assert!(matches!(step, CallStep::Post));
    let step = call.advance(CallEvent::Status(204));
    assert!(matches!(step, CallStep::ReadChunk));
    let step = call.advance(CallEvent::Chunk(Some(b"{\"action\":".to_vec())));
    assert!(matches!(step, CallStep::ReadChunk));
    let step = call.advance(CallEvent::Chunk(Some(b"\"quarantine\"}".to_vec())));
    assert!(matches!(step, CallStep::ReadChunk));
    let step = call.advance(CallEvent::Chunk(None));
    match step {
        CallStep::Decode { body } => assert_eq!(body, b"{\"action\":\"quarantine\"}".to_vec()),
        other => panic!("{:?}", other),
    }
    let response =
        Response { action: Action::Quarantine, modifications: vec![], flags: vec![], skip_inbox: true };
    let result = done(call.advance(CallEvent::Decoded(Ok(response)))).unwrap();
    assert_eq!(result.action, Action::Quarantine);
    assert!(result.skip_inbox);
}

#[test]
fn a_call_fails_at_each_point() {
    let (mut call, _) = send_delivery_hook_request(&hook(10));
    assert_eq!(
        done(call.advance(CallEvent::NotSent(CallFailure::Send("refused".to_string())))).unwrap_err(),
        "Delivery hook request failed: refused"
    );
    for (status, fails) in [(199, true), (200, false), (299, false), (300, true), (503, true)] {
        let (mut call, _) = send_delivery_hook_request(&hook(10));
        let step = call.advance(CallEvent::Status(status));
        assert_eq!(matches!(step, CallStep::Done(Err(_))), fails, "{status}");
    }
    let (mut call, _) = send_delivery_hook_request(&hook(10));
    assert_eq!(
        done(call.advance(CallEvent::Status(503))).unwrap_err(),
        "Delivery hook request failed with code 503: Service Unavailable"
    );
    let (mut call, _) = send_delivery_hook_request(&hook(10));
    call.advance(CallEvent::Status(200));
    assert!(matches!(call.advance(CallEvent::Chunk(Some(vec![0; 6]))), CallStep::ReadChunk));
    assert!(matches!(call.advance(CallEvent::Chunk(Some(vec![0; 4]))), CallStep::ReadChunk));
    assert!(matches!(call.advance(CallEvent::Chunk(Some(vec![]))), CallStep::ReadChunk));
    assert_eq!(
        done(call.advance(CallEvent::Chunk(Some(vec![0; 1])))).unwrap_err(),
        "Delivery hook response too large"
    );
    let (mut call, _) = send_delivery_hook_request(&hook(10));
    call.advance(CallEvent::Status(200));
    assert_eq!(
        done(call.advance(CallEvent::Chunk(Some(vec![0; 11])))).unwrap_err(),
        "Delivery hook response too large"
    );
    let (mut call, _) = send_delivery_hook_request(&hook(10));
    call.advance(CallEvent::Status(200));
    call.advance(CallEvent::Chunk(Some(vec![7; 10])));
    match call.advance(CallEvent::Chunk(None)) {
        CallStep::Decode { body } => assert_eq!(body, vec![7; 10]),
        other => panic!("{:?}", other),
    }
    let (mut call, _) = send_delivery_hook_request(&hook(10));
    call.advance(CallEvent::Status(200));
    assert_eq!(
        done(call.advance(CallEvent::NotRead("reset".to_string()))).unwrap_err(),
        "Failed to parse delivery hook response: reset"
    );
    let (mut call, _) = send_delivery_hook_request(&hook(10));
    call.advance(CallEvent::Status(200));
    call.advance(CallEvent::Chunk(None));
    assert_eq!(
        done(call.advance(CallEvent::Decoded(Err("expected value".to_string())))).unwrap_err(),
        "Failed to parse delivery hook response: expected value"
    );
}

#[test]
fn a_call_takes_no_event_out_of_turn() {
    let (mut call, _) = send_delivery_hook_request(&hook(10));
    assert_eq!(
        done(call.advance(CallEvent::Chunk(None))).unwrap_err(),
        "Delivery hook request failed: unexpected event"
    );
    assert_eq!(
        done(call.advance(CallEvent::Status(200))).unwrap_err(),
        "Delivery hook request failed: unexpected event"
    );
}
