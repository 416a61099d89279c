use mailroute::message::Message;
use mailroute::value::{PatternError, Recipient, RecipientPattern};

fn recipient(mailbox: &str, host: &str) -> Recipient {
    Recipient { mailbox: mailbox.as_bytes().to_vec(), host: host.as_bytes().to_vec() }
}

fn pattern(s: &str) -> RecipientPattern {
    RecipientPattern::parse(s).unwrap()
}

#[test]
fn pattern_parts_are_split() {
    let p = pattern("alice+work@example.com");
    assert_eq!(p.mailbox.as_deref(), Some("alice"));
    assert_eq!(p.plus.as_deref(), Some("work"));
    assert_eq!(p.host.as_deref(), Some("example.com"));

    let p = pattern("fx@");
    assert_eq!(p.mailbox.as_deref(), Some("fx"));
    assert_eq!(p.plus, None);
    assert_eq!(p.host, None);

    let p = pattern("+tag@");
    assert_eq!(p.mailbox, None);
    assert_eq!(p.plus.as_deref(), Some("tag"));
    assert_eq!(p.host, None);

    let p = pattern("@example.com");
    assert_eq!(p.mailbox, None);
    assert_eq!(p.host.as_deref(), Some("example.com"));
}

#[test]
fn pattern_plus_part_may_hold_plus_and_host_may_hold_at() {
    let p = pattern("a+b+c@x@y");
    assert_eq!(p.mailbox.as_deref(), Some("a"));
    assert_eq!(p.plus.as_deref(), Some("b+c"));
    assert_eq!(p.host.as_deref(), Some("x@y"));
}

#[test]
fn pattern_syntax_errors() {
    assert_eq!(RecipientPattern::parse("foo"), Err(PatternError::Syntax));
    assert_eq!(RecipientPattern::parse("a+@b"), Err(PatternError::Syntax));
    assert_eq!(RecipientPattern::parse("a@b\nc"), Err(PatternError::Syntax));
    assert_eq!(RecipientPattern::parse(""), Err(PatternError::Syntax));
}

#[test]
fn bare_at_is_rejected() {
    assert_eq!(RecipientPattern::parse("@"), Err(PatternError::Empty));
}

#[test]
fn pattern_case_insensitivity() {
    assert!(pattern("Foo@BAR.com").matches(&recipient("foo", "bar.com")));
    assert!(pattern("foo@bar.com").matches(&recipient("Foo", "BAR.com")));
    assert!(!pattern("foo@bar.com").matches(&recipient("foo", "bar.org")));
}

#[test]
fn plus_addressing() {
    let p = pattern("alice+work@example.com");
    assert!(p.matches(&recipient("alice+work", "example.com")));
    assert!(!p.matches(&recipient("alice+personal", "example.com")));
    assert!(!p.matches(&recipient("alice", "example.com")));
}

#[test]
fn mailbox_only_pattern_matches_the_part_before_plus() {
    let p = pattern("fx@");
    assert!(p.matches(&recipient("fx", "example.org")));
    assert!(p.matches(&recipient("FX+news", "anywhere.net")));
    assert!(!p.matches(&recipient("fox", "example.org")));
    assert!(!p.matches(&recipient("fxx", "example.org")));
}

#[test]
fn parts_must_have_equal_length() {
    assert!(!RecipientPattern::parts_equal(b"fx", b"fxabc"));
    assert!(RecipientPattern::parts_equal(b"AbC", b"aBc"));
    assert!(RecipientPattern::parts_equal(b"", b""));
}

#[test]
fn folding_touches_ascii_letters_only() {
    assert_eq!(RecipientPattern::part_lower(b'A'), b'a');
    assert_eq!(RecipientPattern::part_lower(b'Z'), b'z');
    assert_eq!(RecipientPattern::part_lower(b'a'), b'a');
    assert_eq!(RecipientPattern::part_lower(b'@'), b'@');
    assert_eq!(RecipientPattern::part_lower(b'['), b'[');
    assert_eq!(RecipientPattern::part_lower(0xC4), 0xC4);
}

#[test]
fn non_ascii_bytes_compare_exactly() {
    let p = pattern("Ä@x");
    assert!(p.matches(&recipient("Ä", "x")));
    assert!(!p.matches(&recipient("ä", "x")));
}

#[test]
fn pattern_text_round_trips() {
    assert_eq!(pattern("alice+work@example.com").to_text(), "\"alice+work@example.com\"");
    assert_eq!(pattern("fx@").to_text(), "\"fx@\"");
}

#[test]
fn message_queries() {
    let m = Message {
        uid: 7,
        body: vec![],
        flags: vec!["Seen".to_string(), "\\Flagged".to_string()],
        recipients: vec![recipient("bar", "den.com"), recipient("fx", "example.org")],
    };
    assert!(m.flagged("Seen"));
    assert!(m.flagged("\\Flagged"));
    assert!(!m.flagged("seen"));
    assert!(m.received_by(&pattern("fx@")));
    assert!(m.received_by(&pattern("@DEN.com")));
    assert!(!m.received_by(&pattern("fox@den.com")));
}
