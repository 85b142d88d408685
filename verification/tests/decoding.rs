use sqlite_reader::error::{DbError, Feature, RecordFault};
use sqlite_reader::page::{
    read_cell_pointer, read_index_interior_cell, read_index_leaf_cell, read_page_header,
    read_table_interior_cell, read_table_leaf_cell, PageHeader, PageKind, TableInteriorCell,
};
use sqlite_reader::record::decode_record;
use sqlite_reader::schema::Column;
use sqlite_reader::serial::{
    extract_integer, get_serial_type_class, get_serial_type_size, to_signed, truncate_real,
    SerialType,
};
use sqlite_reader::sql_type::SqlType;
use sqlite_reader::plan::split_names;
use sqlite_reader::text::{
    bytes_equal, eq_ignore_case, order_keys, same_string, to_lower_byte, white_space, KeyOrder,
};
use sqlite_reader::varint::{read_varint, write_varint};

#[test]
fn read_varint_single_byte() {
    assert_eq!(read_varint(&[0x00]), Ok((0, 1)));
    assert_eq!(read_varint(&[0x7f]), Ok((127, 1)));
    assert_eq!(read_varint(&[0x7f, 0xff]), Ok((127, 1)));
}

#[test]
fn read_varint_two_and_three_bytes() {
    assert_eq!(read_varint(&[0x81, 0x00]), Ok((128, 2)));
    assert_eq!(read_varint(&[0x81, 0x47]), Ok((199, 2)));
    assert_eq!(read_varint(&[0xff, 0x7f]), Ok((16383, 2)));
    assert_eq!(read_varint(&[0x81, 0x80, 0x00, 0x55]), Ok((16384, 3)));
}

#[test]
fn read_varint_nine_bytes_takes_all_bits_of_the_last() {
    assert_eq!(read_varint(&[0xff; 9]), Ok((u64::MAX, 9)));
    assert_eq!(read_varint(&[0xff; 12]), Ok((u64::MAX, 9)));
    let bytes = [0x81, 0x80, 0x80, 0x80, 0x80, 0x80, 0x80, 0x80, 0x00];
    assert_eq!(read_varint(&bytes), Ok((1 << 57, 9)));
    let bytes = [0x80, 0x80, 0x80, 0x80, 0x80, 0x80, 0x80, 0x80, 0x80];
    assert_eq!(read_varint(&bytes), Ok((0x80, 9)));
}

#[test]
fn read_varint_empty_is_truncated() {
    assert_eq!(read_varint(&[]), Err(DbError::TruncatedVarint));
}

#[test]
fn read_varint_that_ends_early_gives_what_it_read() {
    assert_eq!(read_varint(&[0x81]), Ok((1, 1)));
    assert_eq!(read_varint(&[0x81, 0x82]), Ok((130, 2)));
    assert_eq!(read_varint(&[0xff; 8]), Ok(((1 << 56) - 1, 8)));
}

#[test]
fn values_above_the_signed_range_are_not_refused() {
    let bytes = write_varint(1 << 63);
    assert_eq!(read_varint(&bytes), Ok((1 << 63, 9)));
}

#[test]
fn varint_round_trip_on_chosen_values() {
    let mut values = vec![0u64, 1, 127, 128, 255, 256, 16383, 16384, u64::MAX, u64::MAX - 1];
    for shift in 0..64 {
        values.push(1u64 << shift);
        values.push((1u64 << shift) - 1);
        values.push((1u64 << shift) + 1);
    }
    for v in values {
        let bytes = write_varint(v);
        assert_eq!(read_varint(&bytes), Ok((v, bytes.len())));
    }
}

#[test]
fn write_varint_is_the_shortest_encoding() {
    assert_eq!(write_varint(0), vec![0x00]);
    assert_eq!(write_varint(127), vec![0x7f]);
    assert_eq!(write_varint(128), vec![0x81, 0x00]);
    assert_eq!(write_varint(16383), vec![0xff, 0x7f]);
    assert_eq!(write_varint(16384), vec![0x81, 0x80, 0x00]);
    assert_eq!(write_varint((1 << 56) - 1), vec![0xff, 0xff, 0xff, 0xff, 0xff, 0xff, 0xff, 0x7f]);
    assert_eq!(write_varint(1 << 56).len(), 9);
    assert_eq!(write_varint(u64::MAX), vec![0xff; 9]);
}

#[test]
fn serial_type_sizes_follow_the_table() {
    let expected = [(0u64, 0u64), (1, 1), (2, 2), (3, 3), (4, 4), (5, 6), (6, 8), (7, 8), (8, 0)];
    for (n, size) in expected {
        assert_eq!(get_serial_type_size(n), Ok(size));
    }
    assert_eq!(get_serial_type_size(9), Ok(0));
    assert_eq!(get_serial_type_size(12), Ok(0));
    assert_eq!(get_serial_type_size(13), Ok(0));
    assert_eq!(get_serial_type_size(14), Ok(1));
    assert_eq!(get_serial_type_size(15), Ok(1));
    assert_eq!(get_serial_type_size(16), Ok(2));
    assert_eq!(get_serial_type_size(17), Ok(2));
    assert_eq!(get_serial_type_size(13 + 2 * 1000), Ok(1000));
    assert_eq!(get_serial_type_size(12 + 2 * 1000), Ok(1000));
    assert_eq!(get_serial_type_size(u64::MAX), Ok((u64::MAX - 13) / 2));
}

#[test]
fn reserved_serial_types_have_no_size() {
    let reserved = Err(DbError::MalformedRecord(RecordFault::ReservedSerialType));
    assert_eq!(get_serial_type_size(10), reserved);
    assert_eq!(get_serial_type_size(11), reserved);
}

#[test]
fn serial_type_classes_follow_the_table() {
    assert_eq!(get_serial_type_class(0), Some(SqlType::Null));
    for n in [1u64, 2, 3, 4, 5, 6, 8, 9] {
        assert_eq!(get_serial_type_class(n), Some(SqlType::Integer));
    }
    assert_eq!(get_serial_type_class(7), Some(SqlType::Real));
    assert_eq!(get_serial_type_class(10), None);
    assert_eq!(get_serial_type_class(11), None);
    assert_eq!(get_serial_type_class(12), Some(SqlType::Blob));
    assert_eq!(get_serial_type_class(13), Some(SqlType::Text));
    assert_eq!(get_serial_type_class(40), Some(SqlType::Blob));
    assert_eq!(get_serial_type_class(41), Some(SqlType::Text));
}

#[test]
fn serial_types_as_tagged_values() {
    let expected = [
        (0u64, SerialType::Null, 0u64, SqlType::Null),
        (1, SerialType::Int8, 1, SqlType::Integer),
        (2, SerialType::Int16, 2, SqlType::Integer),
        (3, SerialType::Int24, 3, SqlType::Integer),
        (4, SerialType::Int32, 4, SqlType::Integer),
        (5, SerialType::Int48, 6, SqlType::Integer),
        (6, SerialType::Int64, 8, SqlType::Integer),
        (7, SerialType::Real, 8, SqlType::Real),
        (8, SerialType::Zero, 0, SqlType::Integer),
        (9, SerialType::One, 0, SqlType::Integer),
        (12, SerialType::Blob(0), 0, SqlType::Blob),
        (13, SerialType::Text(0), 0, SqlType::Text),
        (20, SerialType::Blob(4), 4, SqlType::Blob),
        (21, SerialType::Text(4), 4, SqlType::Text),
    ];
    for (code, tagged, size, class) in expected {
        assert_eq!(SerialType::from_code(code), Ok(tagged));
        assert_eq!(tagged.size(), size);
        assert_eq!(tagged.class(), class);
    }
    let reserved = Err(DbError::MalformedRecord(RecordFault::ReservedSerialType));
    assert_eq!(SerialType::from_code(10), reserved);
    assert_eq!(SerialType::from_code(11), reserved);
}

#[test]
fn extract_integer_sign_extends_each_width() {
    assert_eq!(extract_integer(&[0x7f], 0, 1), Ok(127));
    assert_eq!(extract_integer(&[0x80], 0, 1), Ok(-128));
    assert_eq!(extract_integer(&[0xff], 0, 1), Ok(-1));
    assert_eq!(extract_integer(&[0x01, 0x00], 0, 2), Ok(256));
    assert_eq!(extract_integer(&[0xff, 0xfe], 0, 2), Ok(-2));
    assert_eq!(extract_integer(&[0x7f, 0xff, 0xff], 0, 3), Ok(8388607));
    assert_eq!(extract_integer(&[0x80, 0x00, 0x00], 0, 3), Ok(-8388608));
    assert_eq!(extract_integer(&[0x00, 0x01, 0x00, 0x00], 0, 4), Ok(65536));
    assert_eq!(extract_integer(&[0x80, 0x00, 0x00, 0x00], 0, 4), Ok(-2147483648));
    assert_eq!(extract_integer(&[0x7f, 0xff, 0xff, 0xff, 0xff, 0xff], 0, 5), Ok(140737488355327));
    assert_eq!(extract_integer(&[0xff, 0xff, 0xff, 0xff, 0xff, 0xfe], 0, 5), Ok(-2));
    assert_eq!(extract_integer(&[0x80, 0, 0, 0, 0, 0], 0, 5), Ok(-140737488355328));
    assert_eq!(extract_integer(&[0x7f, 0xff, 0xff, 0xff, 0xff, 0xff, 0xff, 0xff], 0, 6), Ok(i64::MAX));
    assert_eq!(extract_integer(&[0x80, 0, 0, 0, 0, 0, 0, 0], 0, 6), Ok(i64::MIN));
    assert_eq!(extract_integer(&[0xff; 8], 0, 6), Ok(-1));
}

#[test]
fn extract_integer_of_the_constant_types() {
    assert_eq!(extract_integer(&[], 0, 0), Ok(0));
    assert_eq!(extract_integer(&[], 0, 8), Ok(0));
    assert_eq!(extract_integer(&[], 0, 9), Ok(1));
    assert_eq!(extract_integer(&[9, 9], 2, 9), Ok(1));
}

#[test]
fn constant_types_read_no_byte_wherever_the_offset_lies() {
    assert_eq!(extract_integer(&[], 1, 8), Ok(0));
    assert_eq!(extract_integer(&[], 1, 9), Ok(1));
    assert_eq!(extract_integer(&[], 1, 0), Ok(0));
    assert_eq!(extract_integer(&[1], 5, 0), Ok(0));
    assert_eq!(extract_integer(&[7, 7], usize::MAX, 8), Ok(0));
    assert_eq!(extract_integer(&[7, 7], usize::MAX, 9), Ok(1));
}

#[test]
fn extract_integer_reads_at_the_offset() {
    assert_eq!(extract_integer(&[0xaa, 0xbb, 0x01, 0x02, 0xcc], 2, 2), Ok(258));
}

#[test]
fn extract_integer_of_a_real_is_its_integer_part() {
    let samples = [
        0.0f64,
        -0.0,
        0.5,
        -0.5,
        1.0,
        -1.0,
        1.999,
        -1.999,
        2.5,
        1234567.875,
        -98765.4321,
        4503599627370496.0,
        4503599627370497.0,
        9007199254740993.0,
        9.2e18,
        -9.2e18,
        9223372036854775807.0,
        -9223372036854775808.0,
        1e19,
        -1e19,
        1e300,
        -1e300,
        f64::INFINITY,
        f64::NEG_INFINITY,
        f64::NAN,
        f64::MIN_POSITIVE,
        5e-324,
    ];
    for x in samples {
        let bytes = x.to_bits().to_be_bytes();
        assert_eq!(extract_integer(&bytes, 0, 7), Ok(x as i64));
        assert_eq!(truncate_real(x.to_bits()), x as i64);
    }
    assert_eq!(truncate_real(2.5f64.to_bits()), 2);
    assert_eq!(truncate_real((-7.9f64).to_bits()), -7);
}

#[test]
fn extract_integer_refuses_other_classes_and_short_buffers() {
    assert_eq!(
        extract_integer(&[0; 16], 0, 13),
        Err(DbError::TypeMismatch { expected: SqlType::Integer, got: 13 })
    );
    assert_eq!(
        extract_integer(&[0; 16], 0, 10),
        Err(DbError::TypeMismatch { expected: SqlType::Integer, got: 10 })
    );
    assert_eq!(extract_integer(&[1], 0, 2), Err(DbError::MalformedRecord(RecordFault::BodySize)));
    assert_eq!(extract_integer(&[1], 1, 1), Err(DbError::MalformedRecord(RecordFault::BodySize)));
    assert_eq!(extract_integer(&[1], 5, 1), Err(DbError::MalformedRecord(RecordFault::BodySize)));
    assert_eq!(extract_integer(&[1; 7], 0, 7), Err(DbError::MalformedRecord(RecordFault::BodySize)));
}

#[test]
fn bit_patterns_read_as_signed() {
    assert_eq!(to_signed(5), 5);
    assert_eq!(to_signed(u64::MAX), -1);
    assert_eq!(to_signed(1 << 63), i64::MIN);
    assert_eq!(to_signed((1 << 63) - 1), i64::MAX);
}

#[test]
fn record_columns_and_mass_balance() {
    // header of 4 bytes: its length, an 8-bit integer, text of 3 bytes, null
    let payload = [4u8, 1, 19, 0, 0x2a, b'a', b'b', b'c'];
    let record = decode_record(&payload).unwrap();
    assert_eq!(record.column_count(), 3);
    assert_eq!(record.serial_code(0), Ok(1));
    assert_eq!(record.serial_code(1), Ok(19));
    assert_eq!(record.serial_code(2), Ok(0));
    assert_eq!(record.serial_type(0), Ok(SerialType::Int8));
    assert_eq!(record.serial_type(1), Ok(SerialType::Text(3)));
    assert_eq!(record.serial_type(2), Ok(SerialType::Null));
    assert_eq!(record.column_bytes(0), Ok(&[0x2au8][..]));
    assert_eq!(record.column_bytes(1), Ok(&b"abc"[..]));
    assert_eq!(record.column_bytes(2), Ok(&[][..]));
    assert_eq!(record.as_integer(0), Ok(42));
    assert_eq!(record.as_text(1), Ok("abc".to_string()));
    assert_eq!(record.as_integer(2), Ok(0));
    assert_eq!(record.payload(), &payload[..]);
    let mut total = 4u64;
    for i in 0..record.column_count() {
        let size = get_serial_type_size(record.serial_code(i).unwrap()).unwrap();
        total += size;
        assert_eq!(record.serial_type(i).unwrap().size(), size);
    }
    assert_eq!(total, payload.len() as u64);
}

#[test]
fn record_extractors_check_the_class() {
    let mut payload = vec![5u8, 7, 16, 15, 1];
    payload.extend(1.5f64.to_bits().to_be_bytes());
    payload.extend([0xde, 0xad]);
    payload.push(0xff);
    payload.push(7);
    let record = decode_record(&payload).unwrap();
    assert_eq!(record.as_real_bits(0), Ok(1.5f64.to_bits()));
    assert_eq!(record.as_integer(0), Ok(1));
    assert_eq!(record.as_blob(1), Ok(&[0xdeu8, 0xad][..]));
    assert_eq!(record.as_text(2), Ok("\u{fffd}".to_string()));
    assert_eq!(record.text_bytes(2), Ok(&[0xffu8][..]));
    assert_eq!(record.as_integer(3), Ok(7));
    assert_eq!(
        record.as_real_bits(3),
        Err(DbError::TypeMismatch { expected: SqlType::Real, got: 1 })
    );
    assert_eq!(
        record.as_text(1),
        Err(DbError::TypeMismatch { expected: SqlType::Text, got: 16 })
    );
    assert_eq!(
        record.as_blob(2),
        Err(DbError::TypeMismatch { expected: SqlType::Blob, got: 15 })
    );
    assert_eq!(
        record.as_integer(2),
        Err(DbError::TypeMismatch { expected: SqlType::Integer, got: 15 })
    );
    let missing = Err(DbError::MalformedRecord(RecordFault::NoSuchColumn));
    assert_eq!(record.serial_code(4), missing);
    assert_eq!(record.serial_type(4), Err(DbError::MalformedRecord(RecordFault::NoSuchColumn)));
    assert_eq!(record.as_integer(4), Err(DbError::MalformedRecord(RecordFault::NoSuchColumn)));
    assert_eq!(record.as_real_bits(4), Err(DbError::MalformedRecord(RecordFault::NoSuchColumn)));
    assert_eq!(record.as_text(4), Err(DbError::MalformedRecord(RecordFault::NoSuchColumn)));
    assert_eq!(record.as_blob(4), Err(DbError::MalformedRecord(RecordFault::NoSuchColumn)));
    assert_eq!(record.column_bytes(4), Err(DbError::MalformedRecord(RecordFault::NoSuchColumn)));
}

#[test]
fn record_with_no_columns() {
    let record = decode_record(&[1]).unwrap();
    assert_eq!(record.column_count(), 0);
}

#[test]
fn record_faults() {
    assert_eq!(decode_record(&[]).unwrap_err(), DbError::TruncatedVarint);
    assert_eq!(
        decode_record(&[0]).unwrap_err(),
        DbError::MalformedRecord(RecordFault::HeaderSize)
    );
    assert_eq!(
        decode_record(&[3, 1]).unwrap_err(),
        DbError::MalformedRecord(RecordFault::HeaderSize)
    );
    assert_eq!(
        decode_record(&[0x81, 0x00]).unwrap_err(),
        DbError::MalformedRecord(RecordFault::HeaderSize)
    );
    assert_eq!(
        decode_record(&[2, 0x81, 0x00, 0x00]).unwrap_err(),
        DbError::MalformedRecord(RecordFault::HeaderOverrun)
    );
    assert_eq!(
        decode_record(&[2, 10]).unwrap_err(),
        DbError::MalformedRecord(RecordFault::ReservedSerialType)
    );
    assert_eq!(
        decode_record(&[3, 1, 11, 5]).unwrap_err(),
        DbError::MalformedRecord(RecordFault::ReservedSerialType)
    );
    assert_eq!(
        decode_record(&[2, 2, 0x01]).unwrap_err(),
        DbError::MalformedRecord(RecordFault::BodySize)
    );
    assert_eq!(
        decode_record(&[2, 1, 0x01, 0x02]).unwrap_err(),
        DbError::MalformedRecord(RecordFault::BodySize)
    );
    assert_eq!(
        decode_record(&[3, 6, 6, 1, 2, 3, 4, 5, 6, 7, 8]).unwrap_err(),
        DbError::MalformedRecord(RecordFault::BodySize)
    );
}

#[test]
fn declared_type_keywords() {
    for word in ["integer", "INTEGER", "Int", "int"] {
        assert_eq!(SqlType::from_str(word), SqlType::Integer);
    }
    for word in ["text", "VARCHAR", "Char"] {
        assert_eq!(SqlType::from_str(word), SqlType::Text);
    }
    for word in ["real", "FLOAT", "Double"] {
        assert_eq!(SqlType::from_str(word), SqlType::Real);
    }
    assert_eq!(SqlType::from_str("BLOB"), SqlType::Blob);
    for word in ["", "date", "integers", "in", "\u{212a}", "b\u{4c}ob\u{0}"] {
        assert_eq!(SqlType::from_str(word), SqlType::Text);
    }
}

#[test]
fn class_names() {
    assert_eq!(SqlType::Integer.to_string(), "INTEGER");
    assert_eq!(SqlType::Text.to_string(), "TEXT");
    assert_eq!(SqlType::Real.to_string(), "REAL");
    assert_eq!(SqlType::Blob.to_string(), "BLOB");
    assert_eq!(SqlType::Null.to_string(), "NULL");
}

#[test]
fn column_from_strs() {
    assert_eq!(
        Column::from_strs("id", "INTEGER"),
        Column { name: "id".to_string(), tpe: SqlType::Integer }
    );
    assert_eq!(
        Column::from_strs("note", "clob"),
        Column { name: "note".to_string(), tpe: SqlType::Text }
    );
}

#[test]
fn keys_are_ordered_with_case_folded() {
    assert_eq!(order_keys(b"abc", b"abc"), KeyOrder::Equal);
    assert_eq!(order_keys(b"ABC", b"abc"), KeyOrder::Equal);
    assert_eq!(order_keys(b"", b""), KeyOrder::Equal);
    assert_eq!(order_keys(b"", b"a"), KeyOrder::Less);
    assert_eq!(order_keys(b"a", b""), KeyOrder::Greater);
    assert_eq!(order_keys(b"ab", b"abc"), KeyOrder::Less);
    assert_eq!(order_keys(b"abd", b"ABC"), KeyOrder::Greater);
    assert_eq!(order_keys(b"Z", b"a"), KeyOrder::Greater);
    assert_eq!(order_keys(b"[", b"a"), KeyOrder::Less);
    assert_eq!(order_keys(&[0xc3, 0x89], &[0xc3, 0xa9]), KeyOrder::Less);
    assert!(eq_ignore_case(b"Eritrea", b"eRITREA"));
    assert!(!eq_ignore_case(b"eritrea", b"eritre"));
    assert!(!eq_ignore_case(b"@", b"`"));
    assert!(same_string(&"abc".to_string(), &"abc".to_string()));
    assert!(!same_string(&"abc".to_string(), &"Abc".to_string()));
    assert!(bytes_equal(b"abc", b"abc"));
    assert!(!bytes_equal(b"abc", b"abC"));
    assert!(!bytes_equal(b"abc", b"ab"));
    assert_eq!(to_lower_byte(b'A'), b'a');
    assert_eq!(to_lower_byte(b'Z'), b'z');
    assert_eq!(to_lower_byte(b'@'), b'@');
    assert_eq!(to_lower_byte(b'['), b'[');
    assert_eq!(to_lower_byte(b'q'), b'q');
    assert_eq!(to_lower_byte(0xc9), 0xc9);
}

#[test]
fn page_kinds() {
    assert_eq!(PageKind::from_byte(0x05), Ok(PageKind::TableInterior));
    assert_eq!(PageKind::from_byte(0x0d), Ok(PageKind::TableLeaf));
    assert_eq!(PageKind::from_byte(0x02), Ok(PageKind::IndexInterior));
    assert_eq!(PageKind::from_byte(0x0a), Ok(PageKind::IndexLeaf));
    assert_eq!(PageKind::from_byte(0x00), Err(DbError::UnknownPageKind(0)));
    assert_eq!(PageKind::from_byte(0x0e), Err(DbError::UnknownPageKind(0x0e)));
}

#[test]
fn page_headers() {
    let leaf = [0x0d, 0, 0, 0x01, 0x02, 0, 0, 0, 0xaa, 0xbb];
    assert_eq!(
        read_page_header(&leaf, 0),
        Ok(PageHeader {
            kind: PageKind::TableLeaf,
            kind_byte: 0x0d,
            n_cells: 258,
            right_most: 0,
            pointers_at: 8
        })
    );
    let interior = [9, 9, 0x02, 0, 0, 0, 3, 0, 0, 0, 0x00, 0x01, 0x02, 0x03];
    assert_eq!(
        read_page_header(&interior, 2),
        Ok(PageHeader {
            kind: PageKind::IndexInterior,
            kind_byte: 0x02,
            n_cells: 3,
            right_most: 0x00010203,
            pointers_at: 14
        })
    );
    assert_eq!(read_page_header(&leaf[..7], 0), Err(DbError::IoError));
    assert_eq!(read_page_header(&leaf, 3), Err(DbError::IoError));
    assert_eq!(read_page_header(&leaf, 11), Err(DbError::IoError));
    assert_eq!(read_page_header(&interior[..13], 2), Err(DbError::IoError));
    assert_eq!(read_page_header(&[1; 12], 0), Err(DbError::UnknownPageKind(1)));
}

#[test]
fn cell_pointers_are_read_in_array_order() {
    let page = [0x0d, 0, 0, 0, 2, 0, 0, 0, 0x01, 0x00, 0x00, 0x20];
    let header = read_page_header(&page, 0).unwrap();
    assert_eq!(read_cell_pointer(&page, &header, 0), Ok(256));
    assert_eq!(read_cell_pointer(&page, &header, 1), Ok(32));
    assert_eq!(read_cell_pointer(&page, &header, 2), Err(DbError::IoError));
    assert_eq!(read_cell_pointer(&page, &header, u16::MAX), Err(DbError::IoError));
}

#[test]
fn table_leaf_cells() {
    let mut page = vec![0u8; 64];
    page[10..16].copy_from_slice(&[3, 0x81, 0x00, 0xa, 0xb, 0xc]);
    let cell = read_table_leaf_cell(&page, 10).unwrap();
    assert_eq!(cell.rowid, 128);
    assert_eq!(cell.payload, &[0xa, 0xb, 0xc]);
    page[17..27].copy_from_slice(&[0, 0xff, 0xff, 0xff, 0xff, 0xff, 0xff, 0xff, 0xff, 0xff]);
    let cell = read_table_leaf_cell(&page, 17).unwrap();
    assert_eq!(cell.rowid, -1);
    assert_eq!(cell.payload, &[] as &[u8]);
    assert_eq!(read_table_leaf_cell(&page, 64), Err(DbError::TruncatedVarint));
    assert_eq!(read_table_leaf_cell(&page, 63), Err(DbError::TruncatedVarint));
    page[40] = 30;
    assert_eq!(read_table_leaf_cell(&page, 40), Err(DbError::Unsupported(Feature::Overflow)));
    page[40] = 29;
    assert_eq!(read_table_leaf_cell(&page, 40), Err(DbError::Unsupported(Feature::Overflow)));
    page[50] = 12;
    assert_eq!(read_table_leaf_cell(&page, 50).unwrap().payload.len(), 12);
    page[50] = 13;
    assert_eq!(read_table_leaf_cell(&page, 50), Err(DbError::Unsupported(Feature::Overflow)));
}

#[test]
fn table_interior_cells() {
    let page = [0u8, 0, 0, 7, 0x81, 0x00, 0x12, 0x34, 0x56, 0x78];
    assert_eq!(
        read_table_interior_cell(&page, 0),
        Ok(TableInteriorCell { left_child: 7, key: 128 })
    );
    assert_eq!(
        read_table_interior_cell(&page, 5),
        Ok(TableInteriorCell { left_child: 0x00123456, key: 0x78 })
    );
    assert_eq!(read_table_interior_cell(&page, 6), Err(DbError::TruncatedVarint));
    assert_eq!(read_table_interior_cell(&page, 7), Err(DbError::IoError));
    assert_eq!(read_table_interior_cell(&page, 700), Err(DbError::IoError));
}

#[test]
fn index_cells() {
    let mut page = vec![0u8; 512];
    page[100..106].copy_from_slice(&[0, 0, 0, 9, 2, 0xee]);
    page[106] = 0xdd;
    let cell = read_index_interior_cell(&page, 100).unwrap();
    assert_eq!(cell.left_child, 9);
    assert_eq!(cell.payload, &[0xee, 0xdd]);
    let cell = read_index_leaf_cell(&page, 104).unwrap();
    assert_eq!(cell.payload, &[0xee, 0xdd]);
    // (512 - 12) * 64 / 255 - 23 = 102 is the largest payload held in the page
    page[200] = 102;
    assert_eq!(read_index_leaf_cell(&page, 200).unwrap().payload.len(), 102);
    page[200] = 103;
    assert_eq!(read_index_leaf_cell(&page, 200), Err(DbError::Unsupported(Feature::Overflow)));
    page[500] = 50;
    assert_eq!(read_index_leaf_cell(&page, 500), Err(DbError::Unsupported(Feature::Overflow)));
    assert_eq!(read_index_leaf_cell(&page, 512), Err(DbError::TruncatedVarint));
    assert_eq!(read_index_interior_cell(&page, 508), Err(DbError::TruncatedVarint));
    assert_eq!(read_index_interior_cell(&page, 509), Err(DbError::IoError));
    assert_eq!(read_index_leaf_cell(&[1u8; 11], 0), Err(DbError::Unsupported(Feature::Overflow)));
}

#[test]
fn white_space_is_what_unicode_calls_white_space() {
    for n in 0..=0x10ffffu32 {
        if let Some(c) = char::from_u32(n) {
            assert_eq!(white_space(c), c.is_whitespace());
        }
    }
    assert!(white_space(' '));
    assert!(white_space('\t'));
    assert!(white_space('\u{3000}'));
    assert!(!white_space('a'));
    assert!(!white_space('\u{200b}'));
}

#[test]
fn column_lists_are_split_at_commas_and_trimmed() {
    let lists = [
        "",
        "a",
        " a ",
        "a,b",
        "a , b",
        "  name ,\tcolor\n",
        "a,,b",
        ",",
        " , ",
        "a,",
        ",a",
        "first name, last name",
        "\u{a0}x\u{2003},\u{3000}y z\u{85}",
        "caf\u{e9} , na\u{ef}ve",
        "count(*)",
        "   ",
    ];
    for list in lists {
        let expected: Vec<String> = list.split(',').map(|s| s.trim().to_string()).collect();
        assert_eq!(split_names(list), expected);
    }
    assert_eq!(split_names("a,,b"), vec!["a".to_string(), "".to_string(), "b".to_string()]);
    assert_eq!(split_names(" id , name "), vec!["id".to_string(), "name".to_string()]);
    assert_eq!(split_names(""), vec!["".to_string()]);
}
