use log_replay::{Context, Control, Cursor, LogParser, ParseError};

fn rest(cursor: &mut Cursor) -> String {
    let mut text = String::new();
    while let Some(c) = cursor.advance() {
        text.push(c);
    }
    text
}

#[test]
fn cursor_peek_consumes_nothing() {
    let mut cursor = Cursor::new("ab");
    assert_eq!(cursor.peek(), Some('a'));
    assert_eq!(cursor.peek(), Some('a'));
    assert_eq!(cursor.advance(), Some('a'));
    assert_eq!(cursor.peek(), Some('b'));
    assert_eq!(cursor.advance(), Some('b'));
    assert_eq!(cursor.peek(), None);
    assert_eq!(cursor.advance(), None);
    assert_eq!(cursor.advance(), None);
}

#[test]
fn cursor_on_empty_line() {
    let mut cursor = Cursor::new("");
    assert_eq!(cursor.peek(), None);
    assert_eq!(cursor.advance(), None);
}

#[test]
fn cursor_walks_characters_not_bytes() {
    let mut cursor = Cursor::new("a\u{e9}\u{4e2d}z");
    assert_eq!(cursor.advance(), Some('a'));
    assert_eq!(cursor.advance(), Some('\u{e9}'));
    assert_eq!(cursor.peek(), Some('\u{4e2d}'));
    assert_eq!(cursor.advance(), Some('\u{4e2d}'));
    assert_eq!(cursor.advance(), Some('z'));
    assert_eq!(cursor.advance(), None);
}

#[test]
fn parse_line_skips_an_empty_line() {
    let mut parser = LogParser::new();
    let mut line = Cursor::new("");
    assert_eq!(parser.parse_line(&mut line), Ok(()));
    assert_eq!(parser.key_value().len(), 0);
}

#[test]
fn parse_line_takes_a_record() {
    let mut parser = LogParser::new();
    let mut line = Cursor::new("key=value");
    assert_eq!(parser.parse_line(&mut line), Ok(()));
    assert_eq!(line.peek(), None);
    assert_eq!(parser.key_value().len(), 1);
    assert_eq!(parser.key_value().get("key"), Some(&"value".to_string()));
}

#[test]
fn parse_line_takes_a_directive() {
    let mut parser = LogParser::new();
    assert_eq!(parser.parse_line(&mut Cursor::new("a=b")), Ok(()));
    assert_eq!(parser.parse_line(&mut Cursor::new("c=d")), Ok(()));
    let mut line = Cursor::new(":del a");
    assert_eq!(parser.parse_line(&mut line), Ok(()));
    assert_eq!(line.peek(), None);
    let mapping = parser.into_key_value();
    assert_eq!(mapping.len(), 1);
    assert_eq!(mapping.get("c"), Some(&"d".to_string()));
    assert_eq!(mapping.get("a"), None);
}

#[test]
fn parse_line_leaves_the_mapping_alone_on_a_fault() {
    let mut parser = LogParser::new();
    assert_eq!(parser.parse_line(&mut Cursor::new("a=b")), Ok(()));
    let mut line = Cursor::new("a=B");
    assert_eq!(
        parser.parse_line(&mut line),
        Err(ParseError::InvalidCharacter { context: Context::Value, found: 'B' })
    );
    assert_eq!(line.peek(), Some('B'));
    assert_eq!(parser.key_value().get("a"), Some(&"b".to_string()));
    assert_eq!(parser.key_value().len(), 1);
}

#[test]
fn parse_control_reads_name_and_argument() {
    let mut parser = LogParser::new();
    assert_eq!(parser.parse_line(&mut Cursor::new("a=b")), Ok(()));
    let mut line = Cursor::new("del a");
    assert_eq!(parser.parse_control(&mut line), Ok(()));
    assert_eq!(parser.key_value().len(), 0);
}

#[test]
fn parse_control_stops_after_an_unknown_name() {
    let mut parser = LogParser::new();
    let mut line = Cursor::new("foo bar");
    assert_eq!(
        parser.parse_control(&mut line),
        Err(ParseError::UnrecognizedControl("foo".to_string()))
    );
    assert_eq!(rest(&mut line), "bar");
}

#[test]
fn parse_control_takes_any_character_into_the_name() {
    let mut parser = LogParser::new();
    let mut line = Cursor::new("d=l:9");
    assert_eq!(
        parser.parse_control(&mut line),
        Err(ParseError::UnrecognizedControl("d=l:9".to_string()))
    );
    assert_eq!(line.peek(), None);
}

#[test]
fn parse_del_key_removes_the_key() {
    let mut parser = LogParser::new();
    assert_eq!(parser.parse_line(&mut Cursor::new("ab=c")), Ok(()));
    assert_eq!(parser.parse_line(&mut Cursor::new("a=d")), Ok(()));
    let mut line = Cursor::new("ab");
    assert_eq!(parser.parse_del_key(&mut line), Ok(()));
    assert_eq!(parser.key_value().len(), 1);
    assert_eq!(parser.key_value().get("a"), Some(&"d".to_string()));
}

#[test]
fn parse_del_key_stops_at_the_offending_character() {
    let mut parser = LogParser::new();
    assert_eq!(parser.parse_line(&mut Cursor::new("ab=c")), Ok(()));
    let mut line = Cursor::new("ab-cd");
    assert_eq!(
        parser.parse_del_key(&mut line),
        Err(ParseError::InvalidCharacter { context: Context::DeleteKey, found: '-' })
    );
    assert_eq!(rest(&mut line), "-cd");
    assert_eq!(parser.key_value().len(), 1);
}

#[test]
fn parse_key_value_for_key_reads_the_whole_record() {
    let mut parser = LogParser::new();
    let mut line = Cursor::new("one=two");
    assert_eq!(parser.parse_key_value_for_key(&mut line), Ok(()));
    assert_eq!(parser.key_value().get("one"), Some(&"two".to_string()));
}

#[test]
fn parse_key_value_for_key_takes_a_colon_for_a_bad_character() {
    let mut parser = LogParser::new();
    let mut line = Cursor::new(":del a");
    assert_eq!(
        parser.parse_key_value_for_key(&mut line),
        Err(ParseError::InvalidCharacter { context: Context::Key, found: ':' })
    );
    assert_eq!(rest(&mut line), ":del a");
}

#[test]
fn parse_key_value_for_key_wants_an_equals_sign() {
    let mut parser = LogParser::new();
    let mut line = Cursor::new("abc");
    assert_eq!(parser.parse_key_value_for_key(&mut line), Err(ParseError::UnterminatedKey));
    assert_eq!(line.peek(), None);
    let mut line = Cursor::new("");
    assert_eq!(parser.parse_key_value_for_key(&mut line), Err(ParseError::UnterminatedKey));
}

#[test]
fn parse_key_value_for_value_binds_the_given_key() {
    let mut parser = LogParser::new();
    let mut line = Cursor::new("value");
    assert_eq!(parser.parse_key_value_for_value("key".to_string(), &mut line), Ok(()));
    assert_eq!(parser.key_value().get("key"), Some(&"value".to_string()));
    let mut line = Cursor::new("");
    assert_eq!(parser.parse_key_value_for_value("key".to_string(), &mut line), Ok(()));
    assert_eq!(parser.key_value().get("key"), Some(&String::new()));
    assert_eq!(parser.key_value().len(), 1);
}

#[test]
fn parse_key_value_for_value_rejects_what_is_no_letter() {
    let mut parser = LogParser::new();
    let mut line = Cursor::new("va lue");
    assert_eq!(
        parser.parse_key_value_for_value("key".to_string(), &mut line),
        Err(ParseError::InvalidCharacter { context: Context::Value, found: ' ' })
    );
    assert_eq!(rest(&mut line), " lue");
    assert!(!parser.key_value().contains_key("key"));
}

#[test]
fn control_names() {
    assert_eq!(Control::named("del".to_string()), Control::Delete);
    assert_eq!(Control::named("foo".to_string()), Control::Unrecognized("foo".to_string()));
    assert_eq!(Control::named(String::new()), Control::Unrecognized(String::new()));
    assert_eq!(Control::named("Del".to_string()), Control::Unrecognized("Del".to_string()));
    assert_eq!(Control::named("dele".to_string()), Control::Unrecognized("dele".to_string()));
}
