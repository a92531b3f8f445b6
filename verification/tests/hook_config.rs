use local_delivery::hook_config::{
    parse_delivery_hooks, parse_header_entry, set_header, HookSettings, DEFAULT_MAX_RESPONSE_SIZE,
    DEFAULT_TIMEOUT_MS,
};

fn settings(url: Option<&str>) -> HookSettings {
    HookSettings {
        url: url.map(|u| u.to_string()),
        timeout_ms: None,
        allow_invalid_certs: None,
        tempfail_on_error: None,
        max_response_size: None,
        headers: vec![],
        auth_username: None,
        auth_secret: None,
        enable: None,
    }
}

fn pair(name: &str, value: &str) -> (String, String) {
    (name.to_string(), value.to_string())
}

#[test]
fn hook_without_url_is_none() {
    assert!(parse_delivery_hooks(&settings(None), "h").is_none());
}

#[test]
fn hook_defaults() {
    let hook = parse_delivery_hooks(&settings(Some("https://x/hook")), "filter").unwrap();
    assert_eq!(hook.id, "filter");
    assert_eq!(hook.url, "https://x/hook");
    assert_eq!(hook.enable, "false");
    assert_eq!(hook.timeout_ms, 30_000);
    assert_eq!(DEFAULT_TIMEOUT_MS, 30_000);
    assert!(!hook.tls_allow_invalid_certs);
    assert!(hook.tempfail_on_error);
    assert_eq!(hook.max_response_size, 52_428_800);
    assert_eq!(DEFAULT_MAX_RESPONSE_SIZE, 50 * 1024 * 1024);
    assert_eq!(hook.headers, vec![pair("content-type", "application/json")]);
}

#[test]
fn hook_settings_override_defaults() {
    let mut s = settings(Some("u"));
    s.timeout_ms = Some(5);
    s.allow_invalid_certs = Some(true);
    s.tempfail_on_error = Some(false);
    s.max_response_size = Some(10);
    s.enable = Some("rcpt_domain == 'x'".to_string());
    let hook = parse_delivery_hooks(&s, "h").unwrap();
    assert_eq!(hook.timeout_ms, 5);
    assert!(hook.tls_allow_invalid_certs);
    assert!(!hook.tempfail_on_error);
    assert_eq!(hook.max_response_size, 10);
    assert_eq!(hook.enable, "rcpt_domain == 'x'");
}

#[test]
fn configured_headers_come_first_and_content_type_is_json() {
    let mut s = settings(Some("u"));
    s.headers = vec![
        " X-Token :  abc def ".to_string(),
        "Content-Type: text/plain".to_string(),
        "X-Other:1:2".to_string(),
        "x-token: second".to_string(),
    ];
    let hook = parse_delivery_hooks(&s, "h").unwrap();
    assert_eq!(
        hook.headers,
        vec![
            pair("x-token", "second"),
            pair("content-type", "application/json"),
            pair("x-other", "1:2"),
        ]
    );
}

#[test]
fn one_malformed_header_drops_all_configured_headers() {
    for bad in ["no colon here", "Bad Name: x", ": x", "X-A: line\u{7f}", "X-A: a\nb"] {
        let mut s = settings(Some("u"));
        s.headers = vec!["X-Good: 1".to_string(), bad.to_string(), "X-Also: 2".to_string()];
        let hook = parse_delivery_hooks(&s, "h").unwrap();
        assert_eq!(hook.headers, vec![pair("content-type", "application/json")], "{bad}");
    }
}

#[test]
fn basic_auth_needs_user_and_secret() {
    let mut s = settings(Some("u"));
    s.auth_username = Some("user".to_string());
    let hook = parse_delivery_hooks(&s, "h").unwrap();
    assert_eq!(hook.headers.len(), 1);
    s.auth_username = None;
    s.auth_secret = Some("secret".to_string());
    let hook = parse_delivery_hooks(&s, "h").unwrap();
    assert_eq!(hook.headers.len(), 1);
    s.auth_username = Some("user".to_string());
    let hook = parse_delivery_hooks(&s, "h").unwrap();
    assert_eq!(
        hook.headers,
        vec![
            pair("content-type", "application/json"),
            pair("authorization", "Basic dXNlcjpzZWNyZXQ="),
        ]
    );
}

#[test]
fn basic_auth_replaces_a_configured_authorization() {
    let mut s = settings(Some("u"));
    s.headers = vec!["Authorization: Bearer x".to_string(), "X-A: 1".to_string()];
    s.auth_username = Some("a".to_string());
    s.auth_secret = Some("".to_string());
    let hook = parse_delivery_hooks(&s, "h").unwrap();
    assert_eq!(
        hook.headers,
        vec![
            pair("authorization", "Basic YTo="),
            pair("x-a", "1"),
            pair("content-type", "application/json"),
        ]
    );
}

#[test]
fn header_entries_are_split_trimmed_and_checked() {
    assert_eq!(parse_header_entry("X-Custom: value"), Some(pair("x-custom", "value")));
    assert_eq!(parse_header_entry("\tA\u{a0}:\u{3000}b c\r\n"), Some(pair("a", "b c")));
    assert_eq!(parse_header_entry("A:"), Some(pair("a", "")));
    assert_eq!(parse_header_entry("A: tab\there"), Some(pair("a", "tab\there")));
    assert_eq!(parse_header_entry("A: caf\u{e9}"), Some(pair("a", "caf\u{e9}")));
    assert_eq!(parse_header_entry("A"), None);
    assert_eq!(parse_header_entry(""), None);
    assert_eq!(parse_header_entry(": v"), None);
    assert_eq!(parse_header_entry("A B: v"), None);
    assert_eq!(parse_header_entry("N\u{e9}: v"), None);
    assert_eq!(parse_header_entry("A: bell\u{7}"), None);
    let long = "a".repeat(65_535);
    assert_eq!(parse_header_entry(&format!("{long}: v")), Some(pair(&long, "v")));
    assert_eq!(parse_header_entry(&format!("{long}a: v")), None);
}

#[test]
fn set_header_replaces_in_place() {
    let mut headers = vec![pair("a", "1"), pair("b", "2")];
    set_header(&mut headers, "a".to_string(), "3".to_string());
    assert_eq!(headers, vec![pair("a", "3"), pair("b", "2")]);
    set_header(&mut headers, "c".to_string(), "4".to_string());
    assert_eq!(headers, vec![pair("a", "3"), pair("b", "2"), pair("c", "4")]);
}
