use local_delivery::keyword::{add_flags, has_keyword, Keyword};
use local_delivery::mailbox::{DRAFTS_ID, JUNK_ID, TRASH_ID};

#[test]
fn system_flags_are_known_in_both_spellings() {
    assert_eq!(Keyword::parse("$seen"), Keyword::Seen);
    assert_eq!(Keyword::parse("\\Seen"), Keyword::Seen);
    assert_eq!(Keyword::parse("$DRAFT"), Keyword::Draft);
    assert_eq!(Keyword::parse("$Flagged"), Keyword::Flagged);
    assert_eq!(Keyword::parse("\\answered"), Keyword::Answered);
    assert_eq!(Keyword::parse("$recent"), Keyword::Recent);
    assert_eq!(Keyword::parse("$important"), Keyword::Important);
    assert_eq!(Keyword::parse("$phishing"), Keyword::Phishing);
    assert_eq!(Keyword::parse("$Junk"), Keyword::Junk);
    assert_eq!(Keyword::parse("$NotJunk"), Keyword::NotJunk);
    assert_eq!(Keyword::parse("\\Deleted"), Keyword::Deleted);
    assert_eq!(Keyword::parse("$forwarded"), Keyword::Forwarded);
    assert_eq!(Keyword::parse("$MDNSent"), Keyword::MdnSent);
}

#[test]
fn other_flags_are_custom_keywords() {
    assert_eq!(Keyword::parse("seen"), Keyword::Other("seen".to_string()));
    assert_eq!(Keyword::parse("$seen "), Keyword::Other("$seen ".to_string()));
    assert_eq!(Keyword::parse(""), Keyword::Other("".to_string()));
    assert_eq!(Keyword::parse("$"), Keyword::Other("$".to_string()));
    assert_eq!(Keyword::parse("Project-X"), Keyword::Other("Project-X".to_string()));
}

#[test]
fn three_keywords_file() {
    assert_eq!(Keyword::Junk.target(), Some(JUNK_ID));
    assert_eq!(Keyword::Deleted.target(), Some(TRASH_ID));
    assert_eq!(Keyword::Draft.target(), Some(DRAFTS_ID));
    assert_eq!(Keyword::Seen.target(), None);
    assert_eq!(Keyword::NotJunk.target(), None);
    assert_eq!(Keyword::Other("$junk".to_string()).target(), None);
}

#[test]
fn keywords_compare_by_kind_and_text() {
    assert!(Keyword::Seen.same(&Keyword::Seen));
    assert!(!Keyword::Seen.same(&Keyword::Draft));
    assert!(Keyword::Other("a".to_string()).same(&Keyword::Other("a".to_string())));
    assert!(!Keyword::Other("a".to_string()).same(&Keyword::Other("A".to_string())));
    assert!(!Keyword::Other("a".to_string()).same(&Keyword::Seen));
    let list = vec![Keyword::Seen, Keyword::Other("a".to_string())];
    assert!(has_keyword(&list, &Keyword::Other("a".to_string())));
    assert!(!has_keyword(&list, &Keyword::Junk));
}

#[test]
fn flags_are_added_once() {
    let mut keywords = vec![Keyword::Junk];
    add_flags(
        &mut keywords,
        &vec!["$junk".to_string(), "x".to_string(), "\\Seen".to_string(), "x".to_string(), "$SEEN".to_string()],
    );
    assert_eq!(keywords, vec![Keyword::Junk, Keyword::Other("x".to_string()), Keyword::Seen]);
}
