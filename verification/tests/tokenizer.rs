use xrv::errors::XRVErr;
use xrv::span::Field;
use xrv::tok::tokenize;

fn span_bytes(buf: &[u8], start: usize, length: usize) -> Vec<u8> {
    buf[start..start + length].to_vec()
}

fn name_of(buf: &[u8], f: &Field) -> Vec<u8> {
    span_bytes(buf, f.name.start, f.name.length)
}

fn value_of(buf: &[u8], f: &Field) -> Vec<u8> {
    span_bytes(buf, f.value.start, f.value.length)
}

#[test]
fn bare_fields_round_trip() {
    let line = b"r:tbl1 a:1 b:two\n".to_vec();
    let fields = tokenize(&line, 1).unwrap();
    assert_eq!(fields.len(), 3);
    assert_eq!(name_of(&line, &fields[0]), b"r".to_vec());
    assert_eq!(value_of(&line, &fields[0]), b"tbl1".to_vec());
    assert!(!fields[0].quoted);
    assert_eq!(name_of(&line, &fields[1]), b"a".to_vec());
    assert_eq!(value_of(&line, &fields[1]), b"1".to_vec());
    assert_eq!(name_of(&line, &fields[2]), b"b".to_vec());
    assert_eq!(value_of(&line, &fields[2]), b"two".to_vec());
}

#[test]
fn quoted_value_keeps_spaces_and_colons() {
    let line = b"s:id k:\"a: b c\" w:2\n".to_vec();
    let fields = tokenize(&line, 1).unwrap();
    assert_eq!(fields.len(), 3);
    assert_eq!(name_of(&line, &fields[1]), b"k".to_vec());
    assert_eq!(value_of(&line, &fields[1]), b"a: b c".to_vec());
    assert!(fields[1].quoted);
    assert_eq!(value_of(&line, &fields[2]), b"2".to_vec());
}

#[test]
fn quoted_value_may_be_empty() {
    let line = b"r:x a:\"\"\n".to_vec();
    let fields = tokenize(&line, 1).unwrap();
    assert_eq!(fields.len(), 2);
    assert_eq!(value_of(&line, &fields[1]), Vec::<u8>::new());
    assert!(fields[1].quoted);
}

#[test]
fn bare_value_may_be_empty_before_space() {
    // the jump tag field `j:` carries no value; a space follows at once
    let line = b"j: jumps:x\n".to_vec();
    let fields = tokenize(&line, 1).unwrap();
    assert_eq!(fields.len(), 2);
    assert_eq!(name_of(&line, &fields[0]), b"j".to_vec());
    assert_eq!(value_of(&line, &fields[0]), Vec::<u8>::new());
}

#[test]
fn crlf_terminates_like_newline() {
    let line = b"r:x a:b\r\n".to_vec();
    let fields = tokenize(&line, 1).unwrap();
    assert_eq!(fields.len(), 2);
    assert_eq!(value_of(&line, &fields[1]), b"b".to_vec());
}

#[test]
fn missing_newline_still_closes_trailing_value() {
    let line = b"r:x a:b".to_vec();
    let fields = tokenize(&line, 1).unwrap();
    assert_eq!(fields.len(), 2);
    assert_eq!(value_of(&line, &fields[1]), b"b".to_vec());
}

#[test]
fn missing_value_before_newline_rejected() {
    // `name:` directly followed by the line end is not an empty value
    let line = b"t:tbl1 name:\n".to_vec();
    let err = tokenize(&line, 1).unwrap_err();
    assert_eq!(err, XRVErr::MissingValue(1, 12));
}

#[test]
fn missing_value_at_end_of_buffer_rejected() {
    let line = b"t:tbl1 name:".to_vec();
    let err = tokenize(&line, 1).unwrap_err();
    assert_eq!(err, XRVErr::MissingValue(1, 12));
}

#[test]
fn colon_in_bare_value_rejected_at_exact_offset() {
    let line = b"r:x a:b:c\n".to_vec();
    let err = tokenize(&line, 1).unwrap_err();
    assert_eq!(err, XRVErr::ExpectColon(1, 7));
}

#[test]
fn colon_before_any_name_byte_rejected() {
    let line = b":x a:b\n".to_vec();
    let err = tokenize(&line, 1).unwrap_err();
    assert_eq!(err, XRVErr::ExpectColon(1, 0));
}

#[test]
fn space_in_name_rejected() {
    let line = b"r :x\n".to_vec();
    let err = tokenize(&line, 1).unwrap_err();
    assert_eq!(err, XRVErr::ExpectSpace(1, 1));
}

#[test]
fn quote_inside_name_rejected() {
    let line = b"r:x a\"b:c\n".to_vec();
    let err = tokenize(&line, 1).unwrap_err();
    assert_eq!(err, XRVErr::UnexpectedQuote(1, 5));
}

#[test]
fn quote_in_midvalue_rejected() {
    let line = b"r:x a:b\"c\n".to_vec();
    let err = tokenize(&line, 1).unwrap_err();
    assert_eq!(err, XRVErr::UnexpectedQuote(1, 7));
}

#[test]
fn unterminated_quote_rejected_at_line_end() {
    let line = b"r:x a:\"abc\n".to_vec();
    let err = tokenize(&line, 1).unwrap_err();
    assert_eq!(err, XRVErr::NotExpectingNewline(1, 10));
}

#[test]
fn newline_inside_name_rejected() {
    let line = b"r:x ab\n".to_vec();
    let err = tokenize(&line, 1).unwrap_err();
    assert_eq!(err, XRVErr::NotExpectingNewline(1, 6));
}

#[test]
fn empty_buffer_rejected_as_cut_name() {
    let line = Vec::new();
    let err = tokenize(&line, 7).unwrap_err();
    assert_eq!(err, XRVErr::NotExpectingNewline(7, 0));
}

#[test]
fn error_carries_given_line_number() {
    let line = b"r:x a:b:c\n".to_vec();
    let err = tokenize(&line, 42).unwrap_err();
    assert_eq!(err, XRVErr::ExpectColon(42, 7));
}
