use local_delivery::hooks::{Address, Envelope, Request};

#[test]
fn request_builders_fill_fields() {
    let r = Request::new("abc".to_string(), "jane".to_string());
    assert!(r.envelope.is_none());
    assert!(r.message.is_none());
    let r = r.with_envelope(Envelope {
        from: Address { address: "a@x".to_string() },
        to: Address { address: "b@x".to_string() },
    });
    assert_eq!(r.user_id, "abc");
    assert_eq!(r.principal_name, "jane");
    assert_eq!(r.envelope.unwrap().to.address, "b@x");
}
