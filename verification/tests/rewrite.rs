use local_delivery::rewrite::{
    apply_add_header_modifications, apply_replace_header_modifications, find_occurrence,
    find_terminator, parse_header_section, HeaderField,
};
use mail_parser::MessageParser;

fn parse_headers(raw: &[u8]) -> Vec<(String, String)> {
    let msg = MessageParser::new().parse(raw).expect("parse message");
    msg.root_part()
        .headers()
        .iter()
        .map(|h| {
            (
                h.name().to_string(),
                h.value().as_text().unwrap_or_default().to_string(),
            )
        })
        .collect()
}

fn field(name: &str, value: &str) -> HeaderField {
    HeaderField {
        name: name.as_bytes().to_vec(),
        value: value.as_bytes().to_vec(),
    }
}

fn count(haystack: &str, needle: &str) -> usize {
    haystack.matches(needle).count()
}

#[test]
fn add_single_header_prepends_and_parses() {
    let base = b"Subject: Hi\r\n\r\nBody";
    let out = apply_add_header_modifications(&[("X-Test".to_string(), "foo".to_string())], base);

    // The new header stands before the headers that were there
    let expected_prefix = b"X-Test: foo\r\nSubject: Hi\r\n\r\n";
    assert!(out.starts_with(expected_prefix));

    // Parser must see the new header
    let headers = parse_headers(&out);
    assert!(headers.iter().any(|(n, v)| n == "X-Test" && v == "foo"));
}

#[test]
fn add_multiple_headers_preserves_order() {
    let base = b"Subject: Hi\r\n\r\nBody";
    let out = apply_add_header_modifications(
        &[
            ("X-A".to_string(), "1".to_string()),
            ("X-B".to_string(), "2".to_string()),
        ],
        base,
    );

    // Ensure order X-A then X-B at the top
    let s = String::from_utf8_lossy(&out);
    let pos_a = s.find("X-A: 1").unwrap();
    let pos_b = s.find("X-B: 2").unwrap();
    assert!(pos_a < pos_b);

    let headers = parse_headers(&out);
    // Both must be present
    assert!(headers.iter().any(|(n, v)| n == "X-A" && v == "1"));
    assert!(headers.iter().any(|(n, v)| n == "X-B" && v == "2"));
}

#[test]
fn add_header_with_trailing_lf_is_accepted() {
    let base = b"Subject: Hi\r\n\r\nBody";
    let out = apply_add_header_modifications(&[("X-LF".to_string(), "val\n".to_string())], base);

    // The line feed of the value is written as %0A; the parser still accepts
    let headers = parse_headers(&out);
    assert!(headers.iter().any(|(n, v)| n == "X-LF" && v == "val%0A"));
    assert_eq!(&out[..], &b"X-LF: val%0A\r\nSubject: Hi\r\n\r\nBody"[..]);
}

#[test]
fn add_header_encodes_newlines_per_rfc8187() {
    let base = b"Subject: Hi\r\n\r\nBody";

    // Test LF encoding
    let out = apply_add_header_modifications(
        &[("X-NewLine".to_string(), "before\nafter".to_string())],
        base,
    );
    let s = String::from_utf8_lossy(&out);
    assert!(s.contains("X-NewLine: before%0Aafter\r\n"));

    // Test CR encoding
    let out = apply_add_header_modifications(
        &[("X-CR".to_string(), "before\rafter".to_string())],
        base,
    );
    let s = String::from_utf8_lossy(&out);
    assert!(s.contains("X-CR: before%0Dafter\r\n"));

    // Test CRLF encoding
    let out = apply_add_header_modifications(
        &[("X-CRLF".to_string(), "before\r\nafter".to_string())],
        base,
    );
    let s = String::from_utf8_lossy(&out);
    assert!(s.contains("X-CRLF: before%0D%0Aafter\r\n"));

    // Ensure the message remains parseable
    let headers = parse_headers(&out);
    assert!(headers.iter().any(|(n, _)| n == "X-CRLF"));
}

#[test]
fn add_headers_exact_output_in_order() {
    let out = apply_add_header_modifications(
        &[
            ("X-A".to_string(), "1".to_string()),
            ("X-B".to_string(), "2".to_string()),
        ],
        b"Subject: Hi\r\n\r\nBody",
    );
    assert_eq!(&out[..], &b"X-A: 1\r\nX-B: 2\r\nSubject: Hi\r\n\r\nBody"[..]);
}

#[test]
fn add_no_headers_returns_message_unchanged() {
    let out = apply_add_header_modifications(&[], b"Subject: Hi\r\n\r\nBody");
    assert_eq!(&out[..], &b"Subject: Hi\r\n\r\nBody"[..]);
}

#[test]
fn add_header_starts_with_first_name() {
    let out = apply_add_header_modifications(
        &[
            ("First".to_string(), "\r\nx".to_string()),
            ("Second".to_string(), "y".to_string()),
        ],
        b"",
    );
    assert!(out.starts_with(b"First: "));
    assert_eq!(&out[..], &b"First: %0D%0Ax\r\nSecond: y\r\n"[..]);
}

#[test]
fn add_header_injection_is_neutralised() {
    let out = apply_add_header_modifications(
        &[("X-H".to_string(), "line1\r\nEvil: injected".to_string())],
        b"Subject: Hi\r\n\r\nBody",
    );
    let s = String::from_utf8_lossy(&out);
    assert!(s.contains("X-H: line1%0D%0AEvil: injected\r\n"));
    let headers = parse_headers(&out);
    assert_eq!(headers.iter().filter(|(n, _)| n == "X-H").count(), 1);
    assert!(!headers.iter().any(|(n, _)| n.eq_ignore_ascii_case("Evil")));
    let own = parse_header_section(&out[..find_terminator(&out) + 2]);
    assert_eq!(own.len(), 2);
    assert_eq!(own[0], field("X-H", "line1%0D%0AEvil: injected"));
}

#[test]
fn replace_header_by_ordinal() {
    let raw = b"Received: s1\r\nReceived: s2\r\nReceived: s3\r\n\r\nBody";
    let out = apply_replace_header_modifications(
        &[(2, "Received".to_string(), "from mod".to_string())],
        raw,
        7,
    )
    .expect("second Received exists");
    let s = String::from_utf8_lossy(&out).into_owned();
    assert_eq!(count(&s, "Received:"), 3);
    assert!(s.contains("from mod"));
    assert!(s.contains("s1"));
    assert!(s.contains("s3"));
    assert!(!s.contains("s2"));
    assert_eq!(
        s,
        "Received: s1\r\nReceived: from mod\r\nReceived: s3\r\n\r\nBody"
    );
}

#[test]
fn replace_header_with_empty_value_deletes() {
    let raw = b"Subject: Hi\r\nX-Custom: value\r\nTo: a@x\r\n\r\nBody";
    let out = apply_replace_header_modifications(
        &[(1, "X-Custom".to_string(), "".to_string())],
        raw,
        0,
    )
    .expect("X-Custom exists");
    assert_eq!(&out[..], &b"Subject: Hi\r\nTo: a@x\r\n\r\nBody"[..]);
    let headers = parse_headers(&out);
    assert!(!headers.iter().any(|(n, _)| n.eq_ignore_ascii_case("X-Custom")));
}

#[test]
fn replace_header_without_match_returns_none() {
    let raw = b"Received: s1\r\nReceived: s2\r\n\r\nBody";
    assert!(apply_replace_header_modifications(
        &[(3, "Received".to_string(), "x".to_string())],
        raw,
        0
    )
    .is_none());
    assert!(apply_replace_header_modifications(
        &[(0, "Received".to_string(), "x".to_string())],
        raw,
        0
    )
    .is_none());
    assert!(apply_replace_header_modifications(
        &[(1, "Subject".to_string(), "x".to_string())],
        raw,
        0
    )
    .is_none());
    assert!(apply_replace_header_modifications(&[], raw, 0).is_none());
}

#[test]
fn replace_header_matches_name_without_case() {
    let raw = b"SUBJECT: Hi\r\n\r\nBody";
    let out = apply_replace_header_modifications(
        &[(1, "subject".to_string(), "new".to_string())],
        raw,
        0,
    )
    .unwrap();
    assert_eq!(&out[..], &b"SUBJECT: new\r\n\r\nBody"[..]);
}

#[test]
fn replace_header_encodes_line_breaks() {
    let raw = b"Subject: Hi\r\n\r\nBody";
    let out = apply_replace_header_modifications(
        &[(1, "Subject".to_string(), "a\r\nEvil: b".to_string())],
        raw,
        0,
    )
    .unwrap();
    assert_eq!(&out[..], &b"Subject: a%0D%0AEvil: b\r\n\r\nBody"[..]);
}

#[test]
fn replace_header_keeps_folded_values() {
    let raw = b"Subject: a long\r\n subject line\r\nTo: a@x\r\n\r\nBody\r\n\r\nmore";
    let out = apply_replace_header_modifications(
        &[(1, "To".to_string(), "b@x".to_string())],
        raw,
        0,
    )
    .unwrap();
    assert_eq!(
        &out[..],
        &b"Subject: a long\r\n subject line\r\nTo: b@x\r\n\r\nBody\r\n\r\nmore"[..]
    );
}

#[test]
fn replace_headers_apply_in_order_to_the_list_left_behind() {
    let raw = b"A: 1\r\nA: 2\r\nA: 3\r\n\r\n";
    let out = apply_replace_header_modifications(
        &[
            (1, "A".to_string(), "".to_string()),
            (1, "A".to_string(), "x".to_string()),
            (5, "A".to_string(), "never".to_string()),
        ],
        raw,
        0,
    )
    .unwrap();
    assert_eq!(&out[..], &b"A: x\r\nA: 3\r\n\r\n"[..]);
}

#[test]
fn replace_header_accepts_bare_lf_and_missing_terminator() {
    let raw = b"A: 1\nB: 2\n\tfolded\nnot a header\nC:3";
    let out = apply_replace_header_modifications(
        &[(1, "A".to_string(), "x".to_string())],
        raw,
        0,
    )
    .unwrap();
    assert_eq!(&out[..], &b"A: x\r\nB: 2\r\n\tfolded\r\nC: 3\r\n\r\n"[..]);
}

#[test]
fn tokenizer_splits_names_values_and_folds() {
    let fields = parse_header_section(b" stray\r\nA: 1\r\nB:  two\r\n\tmore\r\nnocolon\r\nC:\r\n");
    assert_eq!(
        fields,
        vec![
            field("A", "1"),
            field("B", " two\r\n\tmore"),
            field("C", ""),
        ]
    );
    assert!(parse_header_section(b"").is_empty());
}

#[test]
fn terminator_is_the_first_empty_line() {
    assert_eq!(find_terminator(b"A: 1\r\n\r\nBody\r\n\r\n"), 4);
    assert_eq!(find_terminator(b"A: 1\n\nBody"), 10);
    assert_eq!(find_terminator(b""), 0);
    assert_eq!(find_terminator(b"\r\n\r\n"), 0);
}

#[test]
fn occurrence_counts_from_one() {
    let fields = vec![field("A", "1"), field("b", "2"), field("a", "3")];
    assert_eq!(find_occurrence(&fields, b"A", 1), Some(0));
    assert_eq!(find_occurrence(&fields, b"A", 2), Some(2));
    assert_eq!(find_occurrence(&fields, b"A", 3), None);
    assert_eq!(find_occurrence(&fields, b"A", 0), None);
    assert_eq!(find_occurrence(&fields, b"B", 1), Some(1));
    assert_eq!(find_occurrence(&fields, b"AB", 1), None);
}

#[test]
fn replaced_message_reads_back_as_the_fields_left() {
    let raw = b"Received: s1\r\nSubject: a long\r\n\tsubject\r\nReceived: s2\r\nX-Del: gone\r\n\r\nBody: not a header\r\n\r\nmore";
    let out = apply_replace_header_modifications(
        &[
            (2, "received".to_string(), "new\r\nvalue".to_string()),
            (1, "x-del".to_string(), "".to_string()),
        ],
        raw,
        0,
    )
    .unwrap();
    let end = find_terminator(&out);
    assert_eq!(
        parse_header_section(&out[..end + 2]),
        vec![
            field("Received", "s1"),
            field("Subject", "a long\r\n\tsubject"),
            field("Received", "new%0D%0Avalue"),
        ]
    );
    assert_eq!(&out[end + 4..], &b"Body: not a header\r\n\r\nmore"[..]);
}

#[test]
fn value_that_begins_with_a_space_is_read_back_without_it() {
    let raw = b"Subject:  late\r\nTo: x\r\n\r\n";
    assert_eq!(parse_header_section(&raw[..raw.len() - 2])[0], field("Subject", " late"));
    let out = apply_replace_header_modifications(&[(1, "To".to_string(), " y".to_string())], raw, 0)
        .unwrap();
    assert_eq!(&out[..], &b"Subject: late\r\nTo: y\r\n\r\n"[..]);
    let end = find_terminator(&out);
    assert_eq!(
        parse_header_section(&out[..end + 2]),
        vec![field("Subject", "late"), field("To", "y")]
    );
}

#[test]
fn message_left_without_headers_has_its_body_read_as_headers() {
    let raw = b"X: 1\r\n\r\nA: b\r\n\r\nrest";
    let out =
        apply_replace_header_modifications(&[(1, "X".to_string(), "".to_string())], raw, 0).unwrap();
    assert_eq!(&out[..], &b"\r\nA: b\r\n\r\nrest"[..]);
    let end = find_terminator(&out);
    assert_eq!(parse_header_section(&out[..end + 2]), vec![field("A", "b")]);
}
