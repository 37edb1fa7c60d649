//! Tests for the record codec and the validator.

use mailflow::codec::{deserialize_csv, serialize_csv, Entry, ParseErrorKind};
use mailflow::datetime::Timestamp;
use mailflow::validate::validate_all_records;

fn ts(year: u32, month: u32, day: u32, hour: u32, minute: u32, second: u32) -> Timestamp {
    Timestamp { year, month, day, hour, minute, second }
}

#[test]
fn deserialize_with_date() {
    let attachment = "id,start_date,end_date\n1,2020-08-23 09:00:00,2020-08-23 17:00:00\n";
    let (records, errors) = deserialize_csv(attachment);
    assert!(errors.is_empty());
    assert_eq!(
        records[0],
        Entry {
            id: 1,
            start_date: ts(2020, 8, 23, 9, 0, 0),
            end_date: ts(2020, 8, 23, 17, 0, 0),
        },
    );
}

#[test]
fn upper_case_id_header_accepted() {
    let attachment = "ID,start_date,end_date\n1,2020-08-23 09:00:00,2020-08-23 17:00:00\n";
    let (records, errors) = deserialize_csv(attachment);
    assert_eq!(records.len(), 1);
    assert!(errors.is_empty());
}

#[test]
fn reversed_interval_yields_one_validation_error() {
    let attachment = "ID,start_date,end_date\n2,2020-08-23 09:00:00,2020-08-23 08:00:00\n";
    let (records, errors) = deserialize_csv(attachment);
    assert_eq!(records.len(), 1);
    assert!(errors.is_empty());
    let verrs = validate_all_records(&records);
    assert_eq!(verrs.len(), 1);
    assert_eq!(verrs[0].id, 2);
    assert_eq!(verrs[0].start_date, ts(2020, 8, 23, 9, 0, 0));
    assert_eq!(verrs[0].end_date, ts(2020, 8, 23, 8, 0, 0));
}

#[test]
fn clean_row_yields_no_validation_error() {
    let attachment = "ID,start_date,end_date\n1,2020-08-23 09:00:00,2020-08-23 17:00:00\n";
    let (records, errors) = deserialize_csv(attachment);
    assert_eq!(records.len(), 1);
    assert!(errors.is_empty());
    let verrs = validate_all_records(&records);
    assert!(verrs.is_empty());
}

#[test]
fn validation_errors_keep_input_order() {
    let attachment = "id,start_date,end_date\n\
        5,2021-01-01 10:00:00,2021-01-01 09:00:00\n\
        6,2021-01-01 10:00:00,2021-01-01 11:00:00\n\
        7,2021-01-02 00:00:01,2021-01-02 00:00:00\n";
    let (records, _) = deserialize_csv(attachment);
    let verrs = validate_all_records(&records);
    assert_eq!(verrs.len(), 2);
    assert_eq!(verrs[0].id, 5);
    assert_eq!(verrs[1].id, 7);
}

#[test]
fn malformed_rows_do_not_disturb_their_neighbours() {
    let attachment = "id,start_date,end_date\n\
        1,2020-08-23 09:00:00,2020-08-23 17:00:00\n\
        oops\n\
        3,2020-08-23 09:00:00,2020-08-23 17:00:00\n";
    let (records, errors) = deserialize_csv(attachment);
    assert_eq!(records.len(), 2);
    assert_eq!(records[0].id, 1);
    assert_eq!(records[1].id, 3);
    assert_eq!(errors.len(), 1);
    assert_eq!(errors[0].row, 2);
    assert_eq!(errors[0].kind, ParseErrorKind::FieldCount);
}

#[test]
fn each_field_reports_its_own_error() {
    let attachment = "id,start_date,end_date\n\
        x,2020-08-23 09:00:00,2020-08-23 17:00:00\n\
        1,2020-08-23,2020-08-23 17:00:00\n\
        1,2020-08-23 09:00:00,never\n";
    let (records, errors) = deserialize_csv(attachment);
    assert!(records.is_empty());
    assert_eq!(errors.len(), 3);
    assert_eq!(errors[0].kind, ParseErrorKind::BadId);
    assert_eq!(errors[1].kind, ParseErrorKind::BadStart);
    assert_eq!(errors[2].kind, ParseErrorKind::BadEnd);
    assert_eq!(errors[0].row, 1);
    assert_eq!(errors[1].row, 2);
    assert_eq!(errors[2].row, 3);
}

#[test]
fn unrecognized_header_marks_every_row() {
    let attachment = "name,start,end\n1,2,3\n4,5,6\n";
    let (records, errors) = deserialize_csv(attachment);
    assert!(records.is_empty());
    assert_eq!(errors.len(), 2);
    assert_eq!(errors[0].kind, ParseErrorKind::BadHeader);
    assert_eq!(errors[0].row, 1);
    assert_eq!(errors[1].row, 2);
}

#[test]
fn id_range_is_enforced() {
    let attachment = "id,start_date,end_date\n\
        4294967295,2020-08-23 09:00:00,2020-08-23 17:00:00\n\
        4294967296,2020-08-23 09:00:00,2020-08-23 17:00:00\n";
    let (records, errors) = deserialize_csv(attachment);
    assert_eq!(records.len(), 1);
    assert_eq!(records[0].id, u32::MAX);
    assert_eq!(errors.len(), 1);
    assert_eq!(errors[0].kind, ParseErrorKind::BadId);
}

#[test]
fn calendar_validity_is_checked() {
    let attachment = "id,start_date,end_date\n\
        1,2020-02-29 00:00:00,2020-02-29 23:59:59\n\
        2,2019-02-29 00:00:00,2019-03-01 00:00:00\n\
        3,2020-02-30 00:00:00,2020-03-01 00:00:00\n\
        4,2020-01-01 24:00:00,2020-01-02 00:00:00\n";
    let (records, errors) = deserialize_csv(attachment);
    assert_eq!(records.len(), 1);
    assert_eq!(records[0].id, 1);
    assert_eq!(errors.len(), 3);
    assert!(errors.iter().all(|e| e.kind == ParseErrorKind::BadStart));
}

#[test]
fn crlf_blank_lines_and_outer_whitespace_are_tolerated() {
    let attachment =
        "  \nid,start_date,end_date\r\n\r\n1,2020-08-23 09:00:00,2020-08-23 17:00:00\r\n\n  ";
    let (records, errors) = deserialize_csv(attachment);
    assert_eq!(records.len(), 1);
    assert!(errors.is_empty());
}

#[test]
fn serialize_produces_the_canonical_document() {
    let records = vec![
        Entry { id: 1, start_date: ts(2020, 8, 23, 9, 0, 0), end_date: ts(2020, 8, 23, 17, 0, 0) },
        Entry { id: 42, start_date: ts(1999, 12, 31, 23, 59, 59), end_date: ts(2000, 1, 1, 0, 0, 0) },
    ];
    let bytes = serialize_csv(&records);
    let expected = "id,start_date,end_date\n\
        1,2020-08-23 09:00:00,2020-08-23 17:00:00\n\
        42,1999-12-31 23:59:59,2000-01-01 00:00:00\n";
    assert_eq!(bytes, expected.as_bytes().to_vec());
}

#[test]
fn decode_of_encode_is_identity() {
    let attachment = "ID,start_date,end_date\r\n\
        2,2020-08-23 09:00:00,2020-08-23 08:00:00\r\n\
        7,2004-02-29 01:02:03,2004-03-01 04:05:06\r\n";
    let (records, errors) = deserialize_csv(attachment);
    assert!(errors.is_empty());
    let encoded = serialize_csv(&records);
    let text = String::from_utf8(encoded.clone()).unwrap();
    let (again, errors2) = deserialize_csv(&text);
    assert!(errors2.is_empty());
    assert_eq!(records, again);
    let encoded2 = serialize_csv(&again);
    assert_eq!(encoded, encoded2);
}

#[test]
fn empty_input_decodes_to_nothing() {
    let (records, errors) = deserialize_csv("");
    assert!(records.is_empty());
    assert!(errors.is_empty());
    let (records2, errors2) = deserialize_csv("   \n  ");
    assert!(records2.is_empty());
    assert!(errors2.is_empty());
}

#[test]
fn header_only_decodes_to_nothing() {
    let (records, errors) = deserialize_csv("id,start_date,end_date\n");
    assert!(records.is_empty());
    assert!(errors.is_empty());
}

#[test]
fn error_descriptions_render_one_line() {
    let attachment = "id,start_date,end_date\nbad,2020-08-23 09:00:00,2020-08-23 17:00:00\n";
    let (_, errors) = deserialize_csv(attachment);
    let line = errors[0].describe();
    assert_eq!(line, b"row 1: invalid id".to_vec());
    let (records, _) = deserialize_csv(
        "id,start_date,end_date\n2,2020-08-23 09:00:00,2020-08-23 08:00:00\n",
    );
    let verrs = validate_all_records(&records);
    let vline = verrs[0].describe();
    assert_eq!(
        vline,
        b"Start date after end date for entry: 2, 2020-08-23 09:00:00, 2020-08-23 08:00:00"
            .to_vec(),
    );
}
