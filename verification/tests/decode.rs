use dbf::{DbfError, DbfFile, Field, FieldType};

fn header_bytes(num_recs: u32, bytes_in_header: u16, bytes_in_rec: u16) -> Vec<u8> {
    let mut h = vec![0u8; 32];
    h[0] = 3;
    h[4..8].copy_from_slice(&num_recs.to_le_bytes());
    h[8..10].copy_from_slice(&bytes_in_header.to_le_bytes());
    h[10..12].copy_from_slice(&bytes_in_rec.to_le_bytes());
    h
}

fn descriptor(name: &str, type_code: u8, field_length: u8, decimal_count: u8) -> Vec<u8> {
    let mut d = vec![0u8; 32];
    d[..name.len()].copy_from_slice(name.as_bytes());
    d[11] = type_code;
    d[16] = field_length;
    d[17] = decimal_count;
    d
}

/// Assembles a whole file: header, descriptors, the two trailing bytes
/// of the header region, then the record bytes.
fn file_bytes(num_recs: u32, bytes_in_rec: u16, descriptors: &[Vec<u8>], records: &[u8]) -> Vec<u8> {
    let bytes_in_header = (33 + 32 * descriptors.len()) as u16;
    let mut f = header_bytes(num_recs, bytes_in_header, bytes_in_rec);
    for d in descriptors {
        f.extend_from_slice(d);
    }
    f.push(0x0D);
    f.push(0x00);
    f.extend_from_slice(records);
    f
}

fn two_column_file() -> Vec<u8> {
    let mut records = Vec::new();
    records.extend_from_slice(b"JOHN DOE  ");
    records.extend_from_slice(b"   123.45 ");
    records.extend_from_slice(b"MARY SMITH");
    records.extend_from_slice(b"  -7.5    ");
    records.extend_from_slice(b"          ");
    records.extend_from_slice(b"   0.25   ");
    file_bytes(
        3,
        20,
        &[descriptor("NAME", b'C', 10, 0), descriptor("AMT", b'N', 10, 2)],
        &records,
    )
}

#[test]
fn open_reports_declared_descriptors() {
    let file = DbfFile::open(two_column_file()).unwrap();
    let headers = file.headers();
    assert_eq!(headers.len(), 2);
    assert_eq!(headers[0].name, "NAME".to_string());
    assert_eq!(headers[0].field_type, FieldType::Character);
    assert_eq!(headers[0].field_length, 10);
    assert_eq!(headers[0].decimal_count, 0);
    assert_eq!(headers[1].name, "AMT".to_string());
    assert_eq!(headers[1].field_type, FieldType::Numeric);
    assert_eq!(headers[1].field_length, 10);
    assert_eq!(headers[1].decimal_count, 2);
    assert_eq!(file.num_records(), 3);
}

#[test]
fn two_field_record_decodes_to_named_values() {
    let file = DbfFile::open(two_column_file()).unwrap();
    let rec = file.record(0).unwrap().unwrap();
    assert_eq!(rec.len(), 2);
    assert_eq!(
        rec.get(&"NAME".to_string()),
        Some(&Field::Character("JOHN DOE".to_string()))
    );
    let amt = rec.get(&"AMT".to_string()).unwrap();
    assert_eq!(amt, &Field::Numeric("123.45".to_string()));
    match amt {
        Field::Numeric(text) => assert_eq!(text.parse::<f64>().unwrap(), 123.45),
        other => panic!("expected a numeric field, got {:?}", other),
    }
}

#[test]
fn record_fetch_twice_yields_equal_records() {
    let file = DbfFile::open(two_column_file()).unwrap();
    for i in 0..3 {
        let first = file.record(i).unwrap().unwrap();
        let second = file.record(i).unwrap().unwrap();
        assert_eq!(first, second);
    }
}

#[test]
fn out_of_range_index_is_none_not_error() {
    let file = DbfFile::open(two_column_file()).unwrap();
    assert!(file.record(3).unwrap().is_none());
    assert!(file.record(4).unwrap().is_none());
    assert!(file.record(u32::MAX).unwrap().is_none());
}

#[test]
fn record_values_in_declaration_order() {
    let file = DbfFile::open(two_column_file()).unwrap();
    let rec = file.record(1).unwrap().unwrap();
    assert_eq!(rec.name_at(0), "NAME");
    assert_eq!(rec.value_at(0), &Field::Character("MARY SMITH".to_string()));
    assert_eq!(rec.name_at(1), "AMT");
    assert_eq!(rec.value_at(1), &Field::Numeric("-7.5".to_string()));
}

#[test]
fn empty_character_field_is_null() {
    let file = DbfFile::open(two_column_file()).unwrap();
    let rec = file.record(2).unwrap().unwrap();
    assert_eq!(rec.get(&"NAME".to_string()), Some(&Field::Null));
    assert_eq!(rec.get(&"AMT".to_string()), Some(&Field::Numeric("0.25".to_string())));
}

#[test]
fn star_marker_is_null_for_both_types() {
    let mut records = Vec::new();
    records.extend_from_slice(b"*DELETED  ");
    records.extend_from_slice(b"*         ");
    let file = DbfFile::open(file_bytes(
        1,
        20,
        &[descriptor("NAME", b'C', 10, 0), descriptor("AMT", b'N', 10, 2)],
        &records,
    ))
    .unwrap();
    let rec = file.record(0).unwrap().unwrap();
    assert_eq!(rec.get(&"NAME".to_string()), Some(&Field::Null));
    assert_eq!(rec.get(&"AMT".to_string()), Some(&Field::Null));
}

#[test]
fn empty_numeric_field_is_parse_error_not_null() {
    let file = DbfFile::open(file_bytes(
        1,
        10,
        &[descriptor("AMT", b'N', 10, 2)],
        b"          ",
    ))
    .unwrap();
    assert_eq!(file.record(0), Err(DbfError::InvalidNumericLiteral));
}

#[test]
fn malformed_numeric_text_is_parse_error() {
    for bad in [&b"   12a    "[..], b" 1e5      ", b" 1.2.3    ", b" -        ", b" .        "] {
        let file = DbfFile::open(file_bytes(1, 10, &[descriptor("AMT", b'N', 10, 2)], bad)).unwrap();
        assert_eq!(file.record(0), Err(DbfError::InvalidNumericLiteral));
    }
}

#[test]
fn numeric_literal_forms_accepted_verbatim() {
    let cases: [(&[u8], &str); 5] = [
        (b"   -1.5   ", "-1.5"),
        (b"+2        ", "+2"),
        (b"  .5      ", ".5"),
        (b"5.        ", "5."),
        (b"007       ", "007"),
    ];
    for (raw, expected) in cases {
        let file =
            DbfFile::open(file_bytes(1, 10, &[descriptor("AMT", b'N', 10, 2)], raw)).unwrap();
        let rec = file.record(0).unwrap().unwrap();
        assert_eq!(rec.get(&"AMT".to_string()), Some(&Field::Numeric(expected.to_string())));
    }
}

#[test]
fn character_field_is_trimmed_verbatim_text() {
    let file = DbfFile::open(file_bytes(
        1,
        10,
        &[descriptor("NOTE", b'C', 10, 0)],
        b"  A  B    ",
    ))
    .unwrap();
    let rec = file.record(0).unwrap().unwrap();
    assert_eq!(rec.get(&"NOTE".to_string()), Some(&Field::Character("A  B".to_string())));
}

#[test]
fn unknown_type_code_fails_open() {
    let r = DbfFile::open(file_bytes(
        0,
        10,
        &[descriptor("NAME", b'C', 5, 0), descriptor("ODD", b'X', 5, 0)],
        b"",
    ));
    assert!(matches!(r, Err(DbfError::UnsupportedFieldType { code: 88 })));
}

#[test]
fn non_ascii_field_name_fails_open() {
    let mut d = descriptor("NAME", b'C', 10, 0);
    d[2] = 0xFF;
    let r = DbfFile::open(file_bytes(0, 10, &[d], b""));
    assert!(matches!(r, Err(DbfError::InvalidFieldText)));
}

#[test]
fn non_ascii_field_bytes_fail_record_decode() {
    let file = DbfFile::open(file_bytes(
        1,
        10,
        &[descriptor("NOTE", b'C', 10, 0)],
        &[b'A', 0xC3, 0xA9, b' ', b' ', b' ', b' ', b' ', b' ', b' '],
    ))
    .unwrap();
    assert_eq!(file.record(0), Err(DbfError::InvalidFieldText));
}

#[test]
fn short_header_is_malformed() {
    assert!(matches!(DbfFile::open(vec![0u8; 10]), Err(DbfError::MalformedHeader)));
    assert!(matches!(DbfFile::open(Vec::new()), Err(DbfError::MalformedHeader)));
}

#[test]
fn tiny_declared_header_length_is_malformed() {
    let h = header_bytes(0, 20, 10);
    assert!(matches!(DbfFile::open(h), Err(DbfError::MalformedHeader)));
}

#[test]
fn negative_record_count_is_malformed() {
    let mut f = file_bytes(0, 10, &[descriptor("NAME", b'C', 5, 0)], b"");
    f[7] = 0x80;
    assert!(matches!(DbfFile::open(f), Err(DbfError::MalformedHeader)));
}

#[test]
fn field_lengths_exceeding_record_width_are_malformed() {
    let r = DbfFile::open(file_bytes(
        0,
        10,
        &[descriptor("A", b'C', 8, 0), descriptor("B", b'C', 8, 0)],
        b"",
    ));
    assert!(matches!(r, Err(DbfError::MalformedHeader)));
}

#[test]
fn truncated_descriptor_area_is_io_failure() {
    let mut f = header_bytes(0, 33 + 64, 10);
    f.extend_from_slice(&descriptor("NAME", b'C', 5, 0));
    let r = DbfFile::open(f);
    assert_eq!(r.err(), Some(DbfError::IoFailure { offset: 32, length: 64 }));
}

#[test]
fn missing_record_bytes_are_io_failure() {
    let file = DbfFile::open(file_bytes(
        2,
        20,
        &[descriptor("NAME", b'C', 20, 0)],
        b"",
    ))
    .unwrap();
    let header_region = 32 + 32 + 2;
    assert_eq!(
        file.record(0),
        Err(DbfError::IoFailure { offset: header_region, length: 20 })
    );
}

#[test]
fn last_record_short_read_is_tolerated() {
    let mut records = Vec::new();
    records.extend_from_slice(b"JOHN DOE  ");
    records.extend_from_slice(b"   123.45 ");
    records.extend_from_slice(b"MARY SMITH");
    records.extend_from_slice(b"  -7.5    ");
    records.extend_from_slice(b"JANE ROE  ");
    records.extend_from_slice(b"   0.25   ");
    records.pop();
    let file = DbfFile::open(file_bytes(
        3,
        20,
        &[descriptor("NAME", b'C', 10, 0), descriptor("AMT", b'N', 10, 2)],
        &records,
    ))
    .unwrap();
    for i in 0..3 {
        assert!(file.record(i).unwrap().is_some());
    }
    let last = file.record(2).unwrap().unwrap();
    assert_eq!(last.get(&"NAME".to_string()), Some(&Field::Character("JANE ROE".to_string())));
    assert_eq!(last.get(&"AMT".to_string()), Some(&Field::Numeric("0.25".to_string())));
}

#[test]
fn last_record_missing_two_bytes_is_io_failure() {
    let mut records = Vec::new();
    records.extend_from_slice(b"JOHN DOE  ");
    records.extend_from_slice(b"   123.45 ");
    records.pop();
    records.pop();
    let file = DbfFile::open(file_bytes(
        1,
        20,
        &[descriptor("NAME", b'C', 10, 0), descriptor("AMT", b'N', 10, 2)],
        &records,
    ))
    .unwrap();
    let header_region = 32 + 64 + 2;
    assert_eq!(
        file.record(0),
        Err(DbfError::IoFailure { offset: header_region, length: 19 })
    );
}

#[test]
fn duplicate_field_name_lookup_takes_the_later_column() {
    let file = DbfFile::open(file_bytes(
        1,
        4,
        &[descriptor("X", b'C', 2, 0), descriptor("X", b'C', 2, 0)],
        b"ABCD",
    ))
    .unwrap();
    let rec = file.record(0).unwrap().unwrap();
    assert_eq!(rec.get(&"X".to_string()), Some(&Field::Character("CD".to_string())));
    assert_eq!(rec.get(&"Y".to_string()), None);
}

#[test]
fn file_without_descriptors_has_no_columns() {
    let file = DbfFile::open(file_bytes(0, 10, &[], b"")).unwrap();
    assert_eq!(file.headers().len(), 0);
    assert_eq!(file.num_records(), 0);
    assert!(file.record(0).unwrap().is_none());
}

#[test]
fn nul_padded_name_is_trimmed_only_of_nuls() {
    let file = DbfFile::open(file_bytes(0, 10, &[descriptor("AB", b'C', 10, 0)], b"")).unwrap();
    assert_eq!(file.headers()[0].name, "AB".to_string());
}

#[test]
fn sequence_walks_all_records_then_ends() {
    let file = DbfFile::open(two_column_file()).unwrap();
    let mut it = file.records();
    assert_eq!(it.size_hint(), (3, Some(3)));
    let first = it.next().unwrap().unwrap();
    assert_eq!(
        first.get(&"NAME".to_string()),
        Some(&Field::Character("JOHN DOE".to_string()))
    );
    assert_eq!(it.size_hint(), (2, Some(2)));
    assert!(it.next().unwrap().is_some());
    assert!(it.next().unwrap().is_some());
    assert_eq!(it.size_hint(), (0, Some(0)));
    assert!(it.next().unwrap().is_none());
    assert!(it.next().unwrap().is_none());
}

#[test]
fn unwrapping_a_sequence_restarts_at_zero() {
    let file = DbfFile::open(two_column_file()).unwrap();
    let mut it = file.records();
    assert!(it.next().unwrap().is_some());
    assert!(it.next().unwrap().is_some());
    let file = it.into_inner();
    assert_eq!(file.num_records(), 3);
    let again = file.record(0).unwrap().unwrap();
    assert_eq!(
        again.get(&"NAME".to_string()),
        Some(&Field::Character("JOHN DOE".to_string()))
    );
    let mut it = file.records();
    assert_eq!(it.size_hint(), (3, Some(3)));
    let first = it.next().unwrap().unwrap();
    assert_eq!(
        first.get(&"NAME".to_string()),
        Some(&Field::Character("JOHN DOE".to_string()))
    );
}
