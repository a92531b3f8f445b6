use local_delivery::bytes::{
    append_bytes, bytes_eq_ignore_case, copy_range, find_byte, is_blank_byte, to_ascii_lower,
};
use local_delivery::rewrite::push_encoded_value;
use local_delivery::text::{add_texts, has_text};

#[test]
fn bytes_compare_without_ascii_case() {
    assert!(bytes_eq_ignore_case(b"Content-Type", b"content-type"));
    assert!(bytes_eq_ignore_case(b"", b""));
    assert!(!bytes_eq_ignore_case(b"abc", b"ab"));
    assert!(!bytes_eq_ignore_case(b"a-b", b"a_b"));
    // only letters fold: '@' and '`' differ by 32 as well
    assert!(!bytes_eq_ignore_case(b"@", b"`"));
    assert!(!bytes_eq_ignore_case(b"[", b"{"));
    assert!(bytes_eq_ignore_case(b"\xc9", b"\xc9"));
    assert!(!bytes_eq_ignore_case(b"\xc9", b"\xe9"));
    assert_eq!(to_ascii_lower(b'A'), b'a');
    assert_eq!(to_ascii_lower(b'Z'), b'z');
    assert_eq!(to_ascii_lower(b'a'), b'a');
    assert_eq!(to_ascii_lower(b'@'), b'@');
    assert_eq!(to_ascii_lower(b'['), b'[');
}

#[test]
fn bytes_are_found_copied_and_appended() {
    assert_eq!(find_byte(b"a:b:c", b':', 0), 1);
    assert_eq!(find_byte(b"a:b:c", b':', 2), 3);
    assert_eq!(find_byte(b"a:b:c", b':', 4), 5);
    assert_eq!(find_byte(b"", b':', 0), 0);
    assert_eq!(copy_range(b"hello", 1, 3), b"el".to_vec());
    assert_eq!(copy_range(b"hello", 2, 2), Vec::<u8>::new());
    let mut out = b"ab".to_vec();
    append_bytes(&mut out, b"cd");
    append_bytes(&mut out, b"");
    assert_eq!(out, b"abcd".to_vec());
    assert!(is_blank_byte(b' '));
    assert!(is_blank_byte(b'\t'));
    assert!(!is_blank_byte(b'\n'));
}

#[test]
fn values_are_encoded_byte_by_byte() {
    let mut out = b">".to_vec();
    push_encoded_value(&mut out, b"a\rb\nc%0D\r\n");
    assert_eq!(out, b">a%0Db%0Ac%0D%0D%0A".to_vec());
}

#[test]
fn text_lists_hold_no_text_twice() {
    let mut list = vec!["a".to_string()];
    add_texts(&mut list, &vec!["b".to_string(), "a".to_string(), "b".to_string(), "A".to_string()]);
    assert_eq!(list, vec!["a".to_string(), "b".to_string(), "A".to_string()]);
    assert!(has_text(&list, &"A".to_string()));
    assert!(!has_text(&list, &"c".to_string()));
}
