use sankshepa::protocol::{ParseError, UnifiedParser};
use sankshepa::rfc3164::RFC3164Parser;
use sankshepa::rfc5424::RFC5424Parser;

#[test]
fn test_parse_rfc3164_basic() {
    let raw = "<34>Oct 11 22:14:15 mymachine su: 'su root' failed for lonvick on /dev/pts/8";
    let msg = RFC3164Parser::parse(raw).unwrap();
    assert_eq!(msg.priority, 34);
    assert_eq!(msg.facility, 4);
    assert_eq!(msg.severity, 2);
    assert_eq!(msg.hostname, Some("mymachine".to_string()));
    assert_eq!(
        msg.message,
        "su: 'su root' failed for lonvick on /dev/pts/8"
    );
    assert!(!msg.is_rfc5424);
}

#[test]
fn test_parse_rfc5424_basic() {
    let input = "<34>1 2003-10-11T22:14:15.003Z myhost myapp 1234 ID47 - Message content";
    let msg = RFC5424Parser::parse(input).unwrap();
    assert_eq!(msg.priority, 34);
    assert_eq!(msg.facility, 4);
    assert_eq!(msg.severity, 2);
    assert_eq!(msg.hostname.unwrap(), "myhost");
    assert_eq!(msg.app_name.unwrap(), "myapp");
    assert_eq!(msg.message, "Message content");
    assert!(msg.is_rfc5424);
}

#[test]
fn test_parse_rfc5424_structured_data() {
    let input = "<34>1 2003-10-11T22:14:15.003Z myhost myapp 1234 ID47 [exampleSDID@32473 iut=\"3\"] Message with SD";
    let msg = RFC5424Parser::parse(input).unwrap();
    assert_eq!(msg.structured_data.unwrap(), "exampleSDID@32473 iut=\"3\"");
    assert_eq!(msg.message, "Message with SD");
}

// The RFC 3339 timestamp is carried through as epoch milliseconds.
#[test]
fn rfc5424_timestamp_value() {
    let input = "<34>1 2003-10-11T22:14:15.003Z myhost myapp 1234 ID47 - x";
    let msg = RFC5424Parser::parse(input).unwrap();
    assert_eq!(msg.timestamp, Some(1065910455003));

    // a nil or unparsable timestamp is absent, not an error
    let nil = RFC5424Parser::parse("<34>1 - h a p m - body").unwrap();
    assert_eq!(nil.timestamp, None);
    let bad = RFC5424Parser::parse("<34>1 not-a-time h a p m - body").unwrap();
    assert_eq!(bad.timestamp, None);
}

#[test]
fn rfc5424_nil_fields_are_absent() {
    let msg = RFC5424Parser::parse("<0>1 - - - - - - hello world").unwrap();
    assert_eq!(msg.priority, 0);
    assert_eq!(msg.hostname, None);
    assert_eq!(msg.app_name, None);
    assert_eq!(msg.procid, None);
    assert_eq!(msg.msgid, None);
    assert_eq!(msg.structured_data, None);
    assert_eq!(msg.message, "hello world");
}

#[test]
fn unified_parser_picks_the_framing() {
    // digit after '>' reads as RFC 5424
    let m1 = UnifiedParser::parse("<34>1 - h a p m - body").unwrap();
    assert!(m1.is_rfc5424);
    // otherwise RFC 3164
    let m2 = UnifiedParser::parse("<34>Oct 11 22:14:15 mymachine hi there").unwrap();
    assert!(!m2.is_rfc5424);
    assert_eq!(m2.hostname, Some("mymachine".to_string()));
    // surrounding whitespace is trimmed first
    let m3 = UnifiedParser::parse("  <34>1 - h a p m - body \n").unwrap();
    assert_eq!(m3.message, "body");
}

#[test]
fn parse_errors_name_their_cause() {
    assert!(matches!(UnifiedParser::parse(""), Err(ParseError::Empty)));
    assert!(matches!(UnifiedParser::parse("   \n"), Err(ParseError::Empty)));
    assert!(matches!(
        UnifiedParser::parse("no priority tag"),
        Err(ParseError::Malformed)
    ));
    // the priority must fit in eight bits
    assert!(matches!(
        RFC3164Parser::parse("<999>Oct 11 22:14:15 h msg"),
        Err(ParseError::Malformed)
    ));
    // a truncated 5424 header is malformed
    assert!(matches!(
        RFC5424Parser::parse("<34>1 - h"),
        Err(ParseError::Malformed)
    ));
    // structured data must close its bracket
    assert!(matches!(
        RFC5424Parser::parse("<34>1 - h a p m [open body"),
        Err(ParseError::Malformed)
    ));
}
