use serverquery::{decode_result, decode_text, parse_i32, parse_status_line, QueryError, QueryStatus};

fn decoded(bytes: &[u8]) -> Result<Option<(i32, String)>, QueryError> {
    decode_result(bytes.to_vec()).map(|o| o.map(|s| (s.id(), s.msg().to_string())))
}

fn chars(s: &str) -> Vec<char> {
    s.chars().collect()
}

#[test]
fn status_accessors() {
    let ok = QueryStatus::new(0, "ok".to_string());
    assert_eq!(ok.id(), 0);
    assert_eq!(ok.msg(), "ok");
    assert!(ok.is_ok());
    let bad = QueryStatus::new(520, "invalid".to_string());
    assert_eq!(bad.id(), 520);
    assert!(!bad.is_ok());
    assert!(!QueryStatus::new(-1, String::new()).is_ok());
}

#[test]
fn status_found_after_other_lines() {
    let r = decoded(b"banner\nvirtualserver_id=1 name=x\nerror id=0 msg=ok\n");
    assert_eq!(r.unwrap(), Some((0, "ok".to_string())));
}

#[test]
fn status_followed_by_other_lines() {
    let r = decoded(b"info\nerror id=3 msg=later\nmore text\nerror id=4 msg=x\n");
    assert_eq!(r.unwrap(), Some((3, "later".to_string())));
}

#[test]
fn status_with_crlf_lines() {
    let r = decoded(b"x\r\nerror id=5 msg=a\\sb\r\n");
    assert_eq!(r.unwrap(), Some((5, "a\\sb".to_string())));
}

#[test]
fn status_with_server_terminator() {
    let r = decoded(b"error id=0 msg=ok\n\r");
    assert_eq!(r.unwrap(), Some((0, "ok".to_string())));
}

#[test]
fn failure_status_is_decoded_not_rejected() {
    let r = decoded(b"error id=520 msg=invalid\\sloginname\\sor\\spassword\n\r");
    assert_eq!(
        r.unwrap(),
        Some((520, "invalid\\sloginname\\sor\\spassword".to_string()))
    );
}

#[test]
fn message_keeps_later_equals_and_spaces() {
    let r = decoded(b"error id=0 msg=a=b c\n");
    assert_eq!(r.unwrap(), Some((0, "a=b c".to_string())));
}

#[test]
fn carriage_return_kept_without_newline() {
    let r = decoded(b"error id=0 msg=ok\r");
    assert_eq!(r.unwrap(), Some((0, "ok\r".to_string())));
}

#[test]
fn empty_message() {
    let r = decoded(b"error id=7 msg=\n");
    assert_eq!(r.unwrap(), Some((7, String::new())));
}

#[test]
fn signed_ids() {
    assert_eq!(decoded(b"error id=-2147483648 msg=m").unwrap(), Some((i32::MIN, "m".to_string())));
    assert_eq!(decoded(b"error id=+12 msg=m").unwrap(), Some((12, "m".to_string())));
    assert_eq!(decoded(b"error id=2147483647 msg=m").unwrap(), Some((i32::MAX, "m".to_string())));
}

#[test]
fn no_status_line_gives_none() {
    assert_eq!(decoded(b"hello\nworld\n").unwrap(), None);
    assert_eq!(decoded(b"").unwrap(), None);
    assert_eq!(decoded(b"xerror id=0 msg=ok\n").unwrap(), None);
    assert_eq!(decoded(b"errors id=0 msg=ok\n").unwrap(), None);
    assert_eq!(decoded(b"\rerror id=0 msg=ok\n").unwrap(), None);
}

#[test]
fn non_numeric_id_is_malformed() {
    assert!(matches!(decoded(b"error id=notanumber msg=x"), Err(QueryError::MalformedStatus)));
}

#[test]
fn malformed_status_lines() {
    assert!(matches!(decoded(b"error id=0\n"), Err(QueryError::MalformedStatus)));
    assert!(matches!(decoded(b"error id0 msg=x\n"), Err(QueryError::MalformedStatus)));
    assert!(matches!(decoded(b"error id=0 msgx\n"), Err(QueryError::MalformedStatus)));
    assert!(matches!(decoded(b"error id=2147483648 msg=x\n"), Err(QueryError::MalformedStatus)));
    assert!(matches!(decoded(b"error id= msg=x\n"), Err(QueryError::MalformedStatus)));
    assert!(matches!(decoded(b"error id=- msg=x\n"), Err(QueryError::MalformedStatus)));
}

#[test]
fn invalid_utf8_is_encoding_error() {
    assert!(matches!(decoded(&[0xff, 0xfe]), Err(QueryError::EncodingError)));
    let mut bytes = b"error id=0 msg=ok\n".to_vec();
    bytes.push(0xc3);
    assert!(matches!(decoded(&bytes), Err(QueryError::EncodingError)));
}

#[test]
fn non_ascii_text_decodes() {
    let r = decoded("grüße\nerror id=0 msg=grüße\n".as_bytes());
    assert_eq!(r.unwrap(), Some((0, "grüße".to_string())));
}

#[test]
fn decoding_is_deterministic() {
    let bytes = b"a\nerror id=12 msg=same\n".to_vec();
    assert_eq!(decoded(&bytes).unwrap(), decoded(&bytes).unwrap());
    assert!(matches!(decoded(b"error id=q msg=x"), Err(QueryError::MalformedStatus)));
    assert!(matches!(decoded(b"error id=q msg=x"), Err(QueryError::MalformedStatus)));
}

#[test]
fn decode_text_directly() {
    let r = decode_text("one\nerror id=9 msg=nine\n").unwrap().unwrap();
    assert_eq!((r.id(), r.msg()), (9, "nine"));
}

#[test]
fn parse_status_line_directly() {
    let s = parse_status_line("error id=42 msg=answer").unwrap();
    assert_eq!((s.id(), s.msg()), (42, "answer"));
    assert!(matches!(parse_status_line("error id=x msg=answer"), Err(QueryError::MalformedStatus)));
}

#[test]
fn parse_i32_cases() {
    assert_eq!(parse_i32(&chars("0")), Some(0));
    assert_eq!(parse_i32(&chars("007")), Some(7));
    assert_eq!(parse_i32(&chars("-15")), Some(-15));
    assert_eq!(parse_i32(&chars("+15")), Some(15));
    assert_eq!(parse_i32(&chars("-0")), Some(0));
    assert_eq!(parse_i32(&chars("2147483647")), Some(i32::MAX));
    assert_eq!(parse_i32(&chars("-2147483648")), Some(i32::MIN));
    assert_eq!(parse_i32(&chars("2147483648")), None);
    assert_eq!(parse_i32(&chars("99999999999999999999")), None);
    assert_eq!(parse_i32(&chars("")), None);
    assert_eq!(parse_i32(&chars("-")), None);
    assert_eq!(parse_i32(&chars("+")), None);
    assert_eq!(parse_i32(&chars("1a")), None);
    assert_eq!(parse_i32(&chars(" 1")), None);
    assert_eq!(parse_i32(&chars("abc")), None);
}
