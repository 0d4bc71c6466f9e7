use xrv::errors::XRVErr;
use xrv::reader::{Line, Lines, Reader, XraveBuffer};
use xrv::types::ColKind;

fn feed(reader: &mut Reader, text: &[u8]) -> Result<Lines, XRVErr> {
    reader.next(Line::new(text.to_vec(), 0))
}

#[test]
fn jump_line_then_locate() {
    let mut reader = Reader::new();
    let r = feed(&mut reader, b"j: jumps:x entryA:100-42\n").unwrap();
    assert!(matches!(r, Lines::JumpLine(1)));
    assert_eq!(reader.locate(&b"entryA".to_vec()), Some((100, 42)));
    assert_eq!(reader.locate(&b"entryB".to_vec()), None);
}

#[test]
fn jump_line_with_many_entries() {
    let mut reader = Reader::new();
    let r = feed(&mut reader, b"j: jumps:x a:1-2 b:30-40 c:500-600\n").unwrap();
    assert!(matches!(r, Lines::JumpLine(3)));
    assert_eq!(reader.locate(&b"a".to_vec()), Some((1, 2)));
    assert_eq!(reader.locate(&b"b".to_vec()), Some((30, 40)));
    assert_eq!(reader.locate(&b"c".to_vec()), Some((500, 600)));
}

#[test]
fn jump_seek_and_length_parsed_independently() {
    // seek and length come from the two sides of the dash, not one
    // substring reused for both
    let mut reader = Reader::new();
    feed(&mut reader, b"j: jumps:x e:100-42\n").unwrap();
    let (seek, length) = reader.locate(&b"e".to_vec()).unwrap();
    assert_eq!(seek, 100);
    assert_eq!(length, 42);
    assert_ne!(seek, length);
}

#[test]
fn jump_value_up_to_u64_max() {
    let mut reader = Reader::new();
    feed(&mut reader, b"j: jumps:x e:18446744073709551615-0\n").unwrap();
    assert_eq!(reader.locate(&b"e".to_vec()), Some((u64::MAX, 0)));
}

#[test]
fn jump_value_overflow_rejected() {
    let mut reader = Reader::new();
    let err = feed(&mut reader, b"j: jumps:x e:18446744073709551616-0\n").unwrap_err();
    assert_eq!(err, XRVErr::NotDecimal(1, 2));
}

#[test]
fn jump_missing_dash_rejected() {
    let mut reader = Reader::new();
    let err = feed(&mut reader, b"j: jumps:x e:100\n").unwrap_err();
    assert_eq!(err, XRVErr::MissingDash(1, 2));
}

#[test]
fn jump_non_numeric_component_rejected() {
    let mut reader = Reader::new();
    let err = feed(&mut reader, b"j: jumps:x e:a-2\n").unwrap_err();
    assert_eq!(err, XRVErr::NotDecimal(1, 2));
}

#[test]
fn jump_wrong_label_rejected() {
    let mut reader = Reader::new();
    let err = feed(&mut reader, b"j: other:x e:1-2\n").unwrap_err();
    assert_eq!(err, XRVErr::NotJumpsLine(1, 1));
}

#[test]
fn jump_without_label_field_rejected() {
    let mut reader = Reader::new();
    let err = feed(&mut reader, b"j: \n").unwrap_err();
    assert_eq!(err, XRVErr::TooFewFields(1, 1));
}

#[test]
fn table_line_builds_schema() {
    let mut reader = Reader::new();
    let r = feed(&mut reader,
        b"t:tbl1 name:\"My Table\" pos:10 len:20 Header:string Position:i32\n").unwrap();
    match r {
        Lines::TableLine(id) => assert_eq!(id, b"tbl1".to_vec()),
        _ => panic!("expected a table line"),
    }
    let schema = reader.table(&b"tbl1".to_vec()).unwrap();
    assert_eq!(schema.id, b"tbl1".to_vec());
    assert_eq!(schema.name, b"My Table".to_vec());
    assert_eq!(schema.data_pos, 10);
    assert_eq!(schema.data_len, 20);
    assert_eq!(schema.columns.len(), 2);
    assert_eq!(schema.columns[0].name, b"Header".to_vec());
    assert_eq!(schema.columns[0].kind, ColKind::Str);
    assert_eq!(schema.columns[1].name, b"Position".to_vec());
    assert_eq!(schema.columns[1].kind, ColKind::I32);
}

#[test]
fn table_name_need_not_be_quoted() {
    let mut reader = Reader::new();
    feed(&mut reader, b"t:tbl name:bare pos:1 len:2\n").unwrap();
    let schema = reader.table(&b"tbl".to_vec()).unwrap();
    assert_eq!(schema.name, b"bare".to_vec());
    assert_eq!(schema.columns.len(), 0);
}

#[test]
fn table_wrong_field_order_rejected() {
    let mut reader = Reader::new();
    let err = feed(&mut reader, b"t:tbl nom:x pos:1 len:2\n").unwrap_err();
    assert_eq!(err, XRVErr::NameFieldExpected(1, 1));
    let err = feed(&mut reader, b"t:tbl name:x len:2 pos:1\n").unwrap_err();
    assert_eq!(err, XRVErr::PosFieldExpected(2, 2));
    let err = feed(&mut reader, b"t:tbl name:x pos:1 size:2\n").unwrap_err();
    assert_eq!(err, XRVErr::LenFieldExpected(3, 3));
}

#[test]
fn table_non_decimal_pos_rejected() {
    let mut reader = Reader::new();
    let err = feed(&mut reader, b"t:tbl name:x pos:ten len:2\n").unwrap_err();
    assert_eq!(err, XRVErr::NotDecimal(1, 2));
}

#[test]
fn table_too_few_fields_rejected() {
    let mut reader = Reader::new();
    let err = feed(&mut reader, b"t:tbl name:x pos:1\n").unwrap_err();
    assert_eq!(err, XRVErr::TooFewFields(1, 3));
}

#[test]
fn table_unknown_type_tag_rejected() {
    let mut reader = Reader::new();
    let err = feed(&mut reader, b"t:tbl name:x pos:1 len:2 c:float\n").unwrap_err();
    assert_eq!(err, XRVErr::UnknownTypeTag(1, 4));
    assert!(reader.table(&b"tbl".to_vec()).is_none());
}

#[test]
fn table_reregistration_last_write_wins() {
    let mut reader = Reader::new();
    feed(&mut reader, b"t:tbl1 name:first pos:1 len:2 a:string\n").unwrap();
    feed(&mut reader, b"t:tbl1 name:second pos:30 len:40 b:i32\n").unwrap();
    let schema = reader.table(&b"tbl1".to_vec()).unwrap();
    assert_eq!(schema.name, b"second".to_vec());
    assert_eq!(schema.data_pos, 30);
    assert_eq!(schema.data_len, 40);
    assert_eq!(schema.columns.len(), 1);
    assert_eq!(schema.columns[0].name, b"b".to_vec());
    assert_eq!(schema.columns[0].kind, ColKind::I32);
}

#[test]
fn other_table_ids_survive_reregistration() {
    let mut reader = Reader::new();
    feed(&mut reader, b"t:one name:x pos:1 len:2\n").unwrap();
    feed(&mut reader, b"t:two name:y pos:3 len:4\n").unwrap();
    feed(&mut reader, b"t:one name:z pos:5 len:6\n").unwrap();
    assert_eq!(reader.table(&b"one".to_vec()).unwrap().name, b"z".to_vec());
    assert_eq!(reader.table(&b"two".to_vec()).unwrap().name, b"y".to_vec());
}

#[test]
fn style_line_kept_verbatim() {
    let mut reader = Reader::new();
    let r = feed(&mut reader, b"s:st1 color:\"red blue\" w:10\n").unwrap();
    match r {
        Lines::StyleLine(id) => assert_eq!(id, b"st1".to_vec()),
        _ => panic!("expected a style line"),
    }
    let style = reader.style(&b"st1".to_vec()).unwrap();
    assert_eq!(style.id, b"st1".to_vec());
    assert_eq!(style.properties.len(), 2);
    assert_eq!(style.properties[0].name, b"color".to_vec());
    assert_eq!(style.properties[0].value, b"red blue".to_vec());
    assert!(style.properties[0].quoted);
    assert_eq!(style.properties[1].name, b"w".to_vec());
    assert_eq!(style.properties[1].value, b"10".to_vec());
    assert!(!style.properties[1].quoted);
}

#[test]
fn style_reregistration_last_write_wins() {
    let mut reader = Reader::new();
    feed(&mut reader, b"s:st1 a:1\n").unwrap();
    feed(&mut reader, b"s:st1 b:2\n").unwrap();
    let style = reader.style(&b"st1".to_vec()).unwrap();
    assert_eq!(style.properties.len(), 1);
    assert_eq!(style.properties[0].name, b"b".to_vec());
}

#[test]
fn record_line_yields_row_without_registry() {
    // the table `tbl1` was never declared: record assembly must not
    // consult the registry
    let mut reader = Reader::new();
    let r = feed(&mut reader, b"r:tbl1 a:\"1\" b:2\n").unwrap();
    match r {
        Lines::RecordLine(row) => {
            assert_eq!(row.id, b"tbl1".to_vec());
            assert_eq!(row.values.len(), 2);
            assert_eq!(row.values[0].name, b"a".to_vec());
            assert_eq!(row.values[0].value, b"1".to_vec());
            assert!(row.values[0].quoted);
            assert_eq!(row.values[1].name, b"b".to_vec());
            assert_eq!(row.values[1].value, b"2".to_vec());
            assert!(!row.values[1].quoted);
        },
        _ => panic!("expected a record line"),
    }
    assert!(reader.table(&b"tbl1".to_vec()).is_none());
}

#[test]
fn unknown_kind_rejected() {
    let mut reader = Reader::new();
    let err = feed(&mut reader, b"q:x a:b\n").unwrap_err();
    assert_eq!(err, XRVErr::UnknownLineKind(1, 0));
    let err = feed(&mut reader, b"rr:x a:b\n").unwrap_err();
    assert_eq!(err, XRVErr::UnknownLineKind(2, 0));
}

#[test]
fn line_counter_advances_by_one_per_next() {
    let mut reader = Reader::new();
    assert_eq!(reader.lines_read(), 0);
    feed(&mut reader, b"s:a x:1\n").unwrap();
    assert_eq!(reader.lines_read(), 1);
    feed(&mut reader, b"r:a y:2\n").unwrap();
    assert_eq!(reader.lines_read(), 2);
    // a failing line advances the counter too
    let _ = feed(&mut reader, b"q:x a:b\n").unwrap_err();
    assert_eq!(reader.lines_read(), 3);
}

#[test]
fn errors_are_stamped_with_current_line_number() {
    let mut reader = Reader::new();
    feed(&mut reader, b"s:a x:1\n").unwrap();
    let err = feed(&mut reader, b"r:x a:b:c\n").unwrap_err();
    assert_eq!(err, XRVErr::ExpectColon(2, 7));
}

#[test]
fn failed_line_leaves_registry_unchanged() {
    let mut reader = Reader::new();
    feed(&mut reader, b"t:tbl name:x pos:1 len:2\n").unwrap();
    let _ = feed(&mut reader, b"t:tbl name:y pos:9 len:9 c:float\n").unwrap_err();
    let schema = reader.table(&b"tbl".to_vec()).unwrap();
    assert_eq!(schema.name, b"x".to_vec());
    assert_eq!(schema.data_pos, 1);
}

#[test]
fn later_jump_entry_of_same_name_wins() {
    let mut reader = Reader::new();
    feed(&mut reader, b"j: jumps:x e:1-2 e:3-4\n").unwrap();
    assert_eq!(reader.locate(&b"e".to_vec()), Some((3, 4)));
    feed(&mut reader, b"j: jumps:x e:5-6\n").unwrap();
    assert_eq!(reader.locate(&b"e".to_vec()), Some((5, 6)));
}

#[test]
fn jump_getter_returns_entry() {
    let mut reader = Reader::new();
    feed(&mut reader, b"j: jumps:x e:7-8\n").unwrap();
    let entry = reader.jump(&b"e".to_vec()).unwrap();
    assert_eq!(entry.name, b"e".to_vec());
    assert_eq!(entry.seek, 7);
    assert_eq!(entry.length, 8);
}

#[test]
fn line_records_offset_and_length() {
    let line = Line::new(b"r:x a:b\n".to_vec(), 123);
    assert_eq!(line.start, 123);
    assert_eq!(line.len, 8);
    assert_eq!(line.buffer, b"r:x a:b\n".to_vec());
}

#[test]
fn xrave_buffer_starts_empty() {
    let buf = XraveBuffer::new();
    assert_eq!(buf.buffer.len(), 0);
    assert_eq!(buf.line, 0);
}
