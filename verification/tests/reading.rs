use cql_codec::column::CollectionSpec;
use cql_codec::column::Column;
use cql_codec::column::ColumnType;
use cql_codec::reader::ByteReader;
use cql_codec::reader::ReadError;
use cql_codec::reading::read_collection_column_value;
use cql_codec::reading::read_column_value;

const ALL_TYPES: [ColumnType; 20] = [
    ColumnType::Custom,
    ColumnType::Ascii,
    ColumnType::Bigint,
    ColumnType::Blob,
    ColumnType::Boolean,
    ColumnType::Counter,
    ColumnType::Decimal,
    ColumnType::Double,
    ColumnType::Float,
    ColumnType::Int,
    ColumnType::Text,
    ColumnType::Timestamp,
    ColumnType::Uuid,
    ColumnType::Varchar,
    ColumnType::Varint,
    ColumnType::Timeuuid,
    ColumnType::Inet,
    ColumnType::CqlList,
    ColumnType::CqlMap,
    ColumnType::CqlSet,
];

fn decode(bytes: Vec<u8>, ty: ColumnType, spec: CollectionSpec) -> (Result<Column, ReadError>, usize) {
    let mut source = ByteReader::new(bytes);
    let column = read_column_value(&mut source, ty, spec);
    (column, source.position())
}

fn text(s: &str) -> Column {
    Column::String(s.to_string())
}

/// A length prefix and a payload.
fn value(payload: &[u8]) -> Vec<u8> {
    let mut bytes = (payload.len() as i32).to_be_bytes().to_vec();
    bytes.extend_from_slice(payload);
    bytes
}

const NULL: [u8; 4] = [0xff, 0xff, 0xff, 0xff];

#[test]
fn minus_one_is_null_for_every_type() {
    for ty in ALL_TYPES {
        let bytes = vec![0xff, 0xff, 0xff, 0xff, 0, 0, 0, 1, 0, 0, 0, 2];
        let (column, position) = decode(bytes, ty, CollectionSpec::Scalar);
        assert_eq!(column, Ok(Column::Null), "{:?}", ty);
        assert_eq!(position, 4, "{:?}", ty);
    }
}

#[test]
fn minus_one_is_null_with_matching_collection_spec() {
    let bytes = vec![0xff, 0xff, 0xff, 0xff, 0, 0, 0, 1];
    let (column, position) =
        decode(bytes.clone(), ColumnType::CqlSet, CollectionSpec::CqlSet(ColumnType::Int));
    assert_eq!(column, Ok(Column::Null));
    assert_eq!(position, 4);
    let (column, position) = decode(
        bytes,
        ColumnType::CqlMap,
        CollectionSpec::CqlMap(ColumnType::Int, ColumnType::Text),
    );
    assert_eq!(column, Ok(Column::Null));
    assert_eq!(position, 4);
}

#[test]
fn any_negative_length_is_null() {
    let bytes = vec![0x80, 0, 0, 0, 1, 2, 3, 4];
    let (column, position) = decode(bytes, ColumnType::Bigint, CollectionSpec::Scalar);
    assert_eq!(column, Ok(Column::Null));
    assert_eq!(position, 4);
}

#[test]
fn minus_one_is_null_for_every_element_type() {
    for ty in ALL_TYPES {
        let mut source = ByteReader::new(vec![0xff, 0xff, 0xff, 0xff, 7]);
        let column = read_collection_column_value(&mut source, ty);
        assert_eq!(column, Ok(Column::Null), "{:?}", ty);
        assert_eq!(source.position(), 4, "{:?}", ty);
    }
}

#[test]
fn int_is_four_bytes_big_endian() {
    let (column, position) =
        decode(vec![0, 0, 0, 4, 0x12, 0x34, 0x56, 0x78, 9], ColumnType::Int, CollectionSpec::Scalar);
    assert_eq!(column, Ok(Column::Int(0x12345678)));
    assert_eq!(position, 8);
}

#[test]
fn negative_int_is_twos_complement() {
    let (column, _) =
        decode(vec![0, 0, 0, 4, 0xff, 0xff, 0xff, 0xfe], ColumnType::Int, CollectionSpec::Scalar);
    assert_eq!(column, Ok(Column::Int(-2)));
    let (column, _) =
        decode(vec![0, 0, 0, 4, 0x80, 0, 0, 0], ColumnType::Int, CollectionSpec::Scalar);
    assert_eq!(column, Ok(Column::Int(i32::MIN)));
}

#[test]
fn bigint_is_eight_bytes_big_endian() {
    let bytes = vec![0, 0, 0, 8, 1, 2, 3, 4, 5, 6, 7, 8, 0xaa];
    let (column, position) = decode(bytes, ColumnType::Bigint, CollectionSpec::Scalar);
    assert_eq!(column, Ok(Column::Bigint(0x0102030405060708)));
    assert_eq!(position, 12);
    let bytes = vec![0, 0, 0, 8, 0xff, 0xff, 0xff, 0xff, 0xff, 0xff, 0xff, 0xfd];
    let (column, _) = decode(bytes, ColumnType::Bigint, CollectionSpec::Scalar);
    assert_eq!(column, Ok(Column::Bigint(-3)));
}

#[test]
fn timestamp_is_milliseconds_as_eight_bytes() {
    let ms: i64 = 1_329_922_398_123;
    let (column, position) =
        decode(value(&ms.to_be_bytes()), ColumnType::Timestamp, CollectionSpec::Scalar);
    assert_eq!(column, Ok(Column::Timestamp(1_329_922_398_123)));
    assert_eq!(position, 12);
    let (column, _) =
        decode(value(&(-1i64).to_be_bytes()), ColumnType::Timestamp, CollectionSpec::Scalar);
    assert_eq!(column, Ok(Column::Timestamp(-1)));
}

#[test]
fn float_holds_the_bits_of_the_wire() {
    let (column, position) =
        decode(value(&1.5f32.to_be_bytes()), ColumnType::Float, CollectionSpec::Scalar);
    assert_eq!(column, Ok(Column::Float(0x3fc0_0000)));
    assert_eq!(position, 8);
    match column {
        Ok(Column::Float(bits)) => assert_eq!(f32::from_bits(bits), 1.5),
        other => panic!("{:?}", other),
    }
}

#[test]
fn double_holds_the_bits_of_the_wire() {
    let (column, position) =
        decode(value(&(-2.25f64).to_be_bytes()), ColumnType::Double, CollectionSpec::Scalar);
    assert_eq!(column, Ok(Column::Double(0xc002_0000_0000_0000)));
    assert_eq!(position, 12);
    match column {
        Ok(Column::Double(bits)) => assert_eq!(f64::from_bits(bits), -2.25),
        other => panic!("{:?}", other),
    }
}

#[test]
fn fixed_width_ignores_the_declared_length() {
    // The prefix says 1, the int still takes four bytes.
    let (column, position) =
        decode(vec![0, 0, 0, 1, 0, 0, 0, 7, 9, 9], ColumnType::Int, CollectionSpec::Scalar);
    assert_eq!(column, Ok(Column::Int(7)));
    assert_eq!(position, 8);
    // The prefix says 0, the bigint still takes eight bytes.
    let (column, position) = decode(
        vec![0, 0, 0, 0, 0, 0, 0, 0, 0, 0, 0, 5],
        ColumnType::Bigint,
        CollectionSpec::Scalar,
    );
    assert_eq!(column, Ok(Column::Bigint(5)));
    assert_eq!(position, 12);
}

#[test]
fn text_is_length_bytes_of_utf8() {
    let mut bytes = value("héllo".as_bytes());
    bytes.push(0x42);
    let (column, position) = decode(bytes, ColumnType::Text, CollectionSpec::Scalar);
    assert_eq!(column, Ok(text("héllo")));
    assert_eq!(position, 4 + 6);
}

#[test]
fn empty_text_is_not_null() {
    let (column, position) = decode(vec![0, 0, 0, 0], ColumnType::Varchar, CollectionSpec::Scalar);
    assert_eq!(column, Ok(text("")));
    assert_eq!(position, 4);
}

#[test]
fn other_types_are_read_as_text() {
    for ty in [
        ColumnType::Custom,
        ColumnType::Ascii,
        ColumnType::Blob,
        ColumnType::Boolean,
        ColumnType::Counter,
        ColumnType::Decimal,
        ColumnType::Text,
        ColumnType::Uuid,
        ColumnType::Varchar,
        ColumnType::Varint,
        ColumnType::Inet,
    ] {
        let (column, position) = decode(value(b"abc"), ty, CollectionSpec::Scalar);
        assert_eq!(column, Ok(text("abc")), "{:?}", ty);
        assert_eq!(position, 7, "{:?}", ty);
    }
}

#[test]
fn invalid_utf8_fails() {
    let (column, position) =
        decode(value(&[0x61, 0xff, 0x62]), ColumnType::Text, CollectionSpec::Scalar);
    assert_eq!(column, Err(ReadError::InvalidUtf8));
    assert_eq!(position, 7);
}

#[test]
fn truncated_multibyte_character_fails() {
    // The first two bytes of a three-byte character.
    let (column, _) = decode(value(&[0xe2, 0x82]), ColumnType::Varchar, CollectionSpec::Scalar);
    assert_eq!(column, Err(ReadError::InvalidUtf8));
}

#[test]
fn surrogate_and_overlong_forms_fail() {
    let (column, _) =
        decode(value(&[0xed, 0xa0, 0x80]), ColumnType::Text, CollectionSpec::Scalar);
    assert_eq!(column, Err(ReadError::InvalidUtf8));
    let (column, _) = decode(value(&[0xc0, 0x80]), ColumnType::Text, CollectionSpec::Scalar);
    assert_eq!(column, Err(ReadError::InvalidUtf8));
}

#[test]
fn invalid_utf8_in_an_element_fails() {
    let mut source = ByteReader::new(value(&[0xc3, 0x28]));
    let column = read_collection_column_value(&mut source, ColumnType::Ascii);
    assert_eq!(column, Err(ReadError::InvalidUtf8));
}

#[test]
fn timeuuid_is_hyphenated_lower_case_text() {
    let raw = [
        0x12, 0x3e, 0x45, 0x67, 0xe8, 0x9b, 0x12, 0xd3, 0xa4, 0x56, 0x42, 0x66, 0x14, 0x17, 0x40,
        0x0f,
    ];
    let mut bytes = value(&raw);
    bytes.push(1);
    let (column, position) = decode(bytes, ColumnType::Timeuuid, CollectionSpec::Scalar);
    assert_eq!(column, Ok(text("123e4567-e89b-12d3-a456-42661417400f")));
    assert_eq!(position, 20);
}

#[test]
fn nil_timeuuid_is_all_zero_digits() {
    let (column, _) = decode(value(&[0; 16]), ColumnType::Timeuuid, CollectionSpec::Scalar);
    assert_eq!(column, Ok(text("00000000-0000-0000-0000-000000000000")));
}

#[test]
fn timeuuid_of_another_length_fails() {
    let (column, position) =
        decode(value(&[1, 2, 3, 4, 5]), ColumnType::Timeuuid, CollectionSpec::Scalar);
    assert_eq!(column, Err(ReadError::InvalidUuid));
    assert_eq!(position, 9);
    let (column, _) = decode(value(&[0; 17]), ColumnType::Timeuuid, CollectionSpec::Scalar);
    assert_eq!(column, Err(ReadError::InvalidUuid));
}

#[test]
fn missing_length_prefix_is_truncated() {
    let (column, position) = decode(vec![], ColumnType::Int, CollectionSpec::Scalar);
    assert_eq!(column, Err(ReadError::Truncated(4)));
    assert_eq!(position, 0);
    let (column, position) = decode(vec![0, 0, 0], ColumnType::Text, CollectionSpec::Scalar);
    assert_eq!(column, Err(ReadError::Truncated(1)));
    assert_eq!(position, 0);
}

#[test]
fn missing_payload_is_truncated() {
    let (column, position) =
        decode(vec![0, 0, 0, 4, 1, 2], ColumnType::Int, CollectionSpec::Scalar);
    assert_eq!(column, Err(ReadError::Truncated(2)));
    assert_eq!(position, 4);
    let (column, position) =
        decode(vec![0, 0, 0, 8, 1, 2, 3], ColumnType::Double, CollectionSpec::Scalar);
    assert_eq!(column, Err(ReadError::Truncated(5)));
    assert_eq!(position, 4);
    let (column, position) =
        decode(vec![0, 0, 0, 10, b'a', b'b'], ColumnType::Text, CollectionSpec::Scalar);
    assert_eq!(column, Err(ReadError::Truncated(8)));
    assert_eq!(position, 4);
    let (column, position) =
        decode(vec![0, 0, 0, 16, 1, 2, 3], ColumnType::Timeuuid, CollectionSpec::Scalar);
    assert_eq!(column, Err(ReadError::Truncated(13)));
    assert_eq!(position, 4);
}

#[test]
fn huge_declared_length_is_truncated() {
    let (column, position) =
        decode(vec![0x7f, 0xff, 0xff, 0xff, 1], ColumnType::Text, CollectionSpec::Scalar);
    assert_eq!(column, Err(ReadError::Truncated(0x7fff_ffff - 1)));
    assert_eq!(position, 4);
}

#[test]
fn list_of_ints_keeps_order() {
    let mut body = 3i32.to_be_bytes().to_vec();
    body.extend(value(&30i32.to_be_bytes()));
    body.extend(value(&10i32.to_be_bytes()));
    body.extend(value(&20i32.to_be_bytes()));
    let mut bytes = value(&body);
    bytes.push(0xee);
    let (column, position) =
        decode(bytes, ColumnType::CqlList, CollectionSpec::CqlList(ColumnType::Int));
    assert_eq!(
        column,
        Ok(Column::CqlList(vec![Column::Int(30), Column::Int(10), Column::Int(20)]))
    );
    assert_eq!(position, 4 + 4 + 3 * 8);
}

#[test]
fn set_of_text_with_a_null_element() {
    let mut body = 3i32.to_be_bytes().to_vec();
    body.extend(value(b"b"));
    body.extend(NULL);
    body.extend(value(b"a"));
    let (column, position) =
        decode(value(&body), ColumnType::CqlSet, CollectionSpec::CqlSet(ColumnType::Text));
    assert_eq!(column, Ok(Column::CqlSet(vec![text("b"), Column::Null, text("a")])));
    assert_eq!(position, 4 + 4 + 5 + 4 + 5);
}

#[test]
fn empty_and_negative_counts_give_no_elements() {
    let bytes = vec![0, 0, 0, 4, 0, 0, 0, 0, 1, 2, 3];
    let (column, position) =
        decode(bytes, ColumnType::CqlList, CollectionSpec::CqlList(ColumnType::Int));
    assert_eq!(column, Ok(Column::CqlList(vec![])));
    assert_eq!(position, 8);
    let bytes = vec![0, 0, 0, 4, 0xff, 0xff, 0xff, 0xfb, 1, 2, 3];
    let (column, position) =
        decode(bytes, ColumnType::CqlSet, CollectionSpec::CqlSet(ColumnType::Int));
    assert_eq!(column, Ok(Column::CqlSet(vec![])));
    assert_eq!(position, 8);
    let bytes = vec![0, 0, 0, 4, 0x80, 0, 0, 0];
    let (column, position) = decode(
        bytes,
        ColumnType::CqlMap,
        CollectionSpec::CqlMap(ColumnType::Int, ColumnType::Int),
    );
    assert_eq!(column, Ok(Column::CqlMap(vec![])));
    assert_eq!(position, 8);
}

#[test]
fn elements_of_a_collection_type_are_read_as_text() {
    let mut body = 1i32.to_be_bytes().to_vec();
    body.extend(value(b"xyz"));
    let (column, _) =
        decode(value(&body), ColumnType::CqlList, CollectionSpec::CqlList(ColumnType::CqlSet));
    assert_eq!(column, Ok(Column::CqlList(vec![text("xyz")])));
}

#[test]
fn count_beyond_the_stream_is_truncated() {
    let mut body = 2i32.to_be_bytes().to_vec();
    body.extend(value(&1i32.to_be_bytes()));
    let (column, position) =
        decode(value(&body), ColumnType::CqlList, CollectionSpec::CqlList(ColumnType::Int));
    assert_eq!(column, Err(ReadError::Truncated(4)));
    assert_eq!(position, 16);
}

#[test]
fn missing_count_is_truncated() {
    let (column, position) = decode(
        vec![0, 0, 0, 4, 0, 0],
        ColumnType::CqlSet,
        CollectionSpec::CqlSet(ColumnType::Int),
    );
    assert_eq!(column, Err(ReadError::Truncated(2)));
    assert_eq!(position, 4);
    // The count is read before the shape is looked at.
    let (column, position) =
        decode(vec![0, 0, 0, 4, 0, 0], ColumnType::CqlSet, CollectionSpec::Scalar);
    assert_eq!(column, Err(ReadError::Truncated(2)));
    assert_eq!(position, 4);
}

#[test]
fn error_in_an_element_fails_the_collection() {
    let mut body = 2i32.to_be_bytes().to_vec();
    body.extend(value(b"ok"));
    body.extend(value(&[0xff]));
    let (column, _) =
        decode(value(&body), ColumnType::CqlSet, CollectionSpec::CqlSet(ColumnType::Text));
    assert_eq!(column, Err(ReadError::InvalidUtf8));
}

#[test]
fn map_keeps_wire_order() {
    let mut body = 3i32.to_be_bytes().to_vec();
    for (k, v) in [("z", 1i32), ("a", 2), ("m", 3)] {
        body.extend(value(k.as_bytes()));
        body.extend(value(&v.to_be_bytes()));
    }
    let mut bytes = value(&body);
    bytes.extend([9, 9]);
    let (column, position) = decode(
        bytes,
        ColumnType::CqlMap,
        CollectionSpec::CqlMap(ColumnType::Text, ColumnType::Int),
    );
    assert_eq!(
        column,
        Ok(Column::CqlMap(vec![
            (text("z"), Column::Int(1)),
            (text("a"), Column::Int(2)),
            (text("m"), Column::Int(3)),
        ]))
    );
    assert_eq!(position, 4 + 4 + 3 * (5 + 8));
}

#[test]
fn map_round_trip_drops_null_keys_only() {
    // Four entries; the second has a null key, the third a null value.
    let mut body = 4i32.to_be_bytes().to_vec();
    body.extend(value(&1i32.to_be_bytes()));
    body.extend(value(b"one"));
    body.extend(NULL);
    body.extend(value(b"lost"));
    body.extend(value(&3i32.to_be_bytes()));
    body.extend(NULL);
    body.extend(value(&4i32.to_be_bytes()));
    body.extend(value(b"four"));
    let mut bytes = value(&body);
    let end = bytes.len();
    bytes.extend(value(&77i32.to_be_bytes()));
    let mut source = ByteReader::new(bytes);
    let column = read_column_value(
        &mut source,
        ColumnType::CqlMap,
        CollectionSpec::CqlMap(ColumnType::Int, ColumnType::Varchar),
    );
    assert_eq!(
        column,
        Ok(Column::CqlMap(vec![
            (Column::Int(1), text("one")),
            (Column::Int(3), Column::Null),
            (Column::Int(4), text("four")),
        ]))
    );
    // The value of the dropped entry was read: the next value is intact.
    assert_eq!(source.position(), end);
    let next = read_column_value(&mut source, ColumnType::Int, CollectionSpec::Scalar);
    assert_eq!(next, Ok(Column::Int(77)));
    assert_eq!(source.remaining(), 0);
}

#[test]
fn map_of_only_null_keys_is_empty() {
    let mut body = 2i32.to_be_bytes().to_vec();
    body.extend(NULL);
    body.extend(value(&1i32.to_be_bytes()));
    body.extend(NULL);
    body.extend(NULL);
    let (column, position) = decode(
        value(&body),
        ColumnType::CqlMap,
        CollectionSpec::CqlMap(ColumnType::Text, ColumnType::Int),
    );
    assert_eq!(column, Ok(Column::CqlMap(vec![])));
    assert_eq!(position, 4 + 4 + 4 + 8 + 4 + 4);
}

#[test]
fn error_in_the_value_of_a_null_key_still_fails() {
    let mut body = 1i32.to_be_bytes().to_vec();
    body.extend(NULL);
    body.extend(value(&[0xff, 0xfe]));
    let (column, _) = decode(
        value(&body),
        ColumnType::CqlMap,
        CollectionSpec::CqlMap(ColumnType::Int, ColumnType::Text),
    );
    assert_eq!(column, Err(ReadError::InvalidUtf8));
}

#[test]
fn map_with_a_missing_value_is_truncated() {
    let mut body = 1i32.to_be_bytes().to_vec();
    body.extend(value(&1i32.to_be_bytes()));
    let (column, position) = decode(
        value(&body),
        ColumnType::CqlMap,
        CollectionSpec::CqlMap(ColumnType::Int, ColumnType::Int),
    );
    assert_eq!(column, Err(ReadError::Truncated(4)));
    assert_eq!(position, 16);
}

#[test]
fn set_with_a_map_spec_is_null() {
    let mut body = 2i32.to_be_bytes().to_vec();
    body.extend(value(&1i32.to_be_bytes()));
    body.extend(value(&2i32.to_be_bytes()));
    let (column, position) = decode(
        value(&body),
        ColumnType::CqlSet,
        CollectionSpec::CqlMap(ColumnType::Int, ColumnType::Int),
    );
    assert_eq!(column, Ok(Column::Null));
    // The length and the count were read, the elements were not.
    assert_eq!(position, 8);
}

#[test]
fn every_mismatched_shape_is_null() {
    let specs = [
        CollectionSpec::Scalar,
        CollectionSpec::CqlList(ColumnType::Int),
        CollectionSpec::CqlSet(ColumnType::Int),
        CollectionSpec::CqlMap(ColumnType::Int, ColumnType::Int),
    ];
    let types = [ColumnType::CqlList, ColumnType::CqlSet, ColumnType::CqlMap];
    for (t, ty) in types.iter().enumerate() {
        for (s, spec) in specs.iter().enumerate() {
            if s == t + 1 {
                continue;
            }
            let bytes = vec![0, 0, 0, 4, 0, 0, 0, 0, 5];
            let (column, position) = decode(bytes, *ty, *spec);
            assert_eq!(column, Ok(Column::Null), "{:?} {:?}", ty, spec);
            assert_eq!(position, 8, "{:?} {:?}", ty, spec);
        }
    }
}

#[test]
fn scalar_types_ignore_a_collection_spec() {
    let (column, position) = decode(
        value(&5i32.to_be_bytes()),
        ColumnType::Int,
        CollectionSpec::CqlList(ColumnType::Text),
    );
    assert_eq!(column, Ok(Column::Int(5)));
    assert_eq!(position, 8);
}

#[test]
fn values_are_read_one_after_the_other() {
    let mut bytes = value(&1i32.to_be_bytes());
    bytes.extend(NULL);
    bytes.extend(value(b"end"));
    let mut source = ByteReader::new(bytes);
    assert_eq!(
        read_column_value(&mut source, ColumnType::Int, CollectionSpec::Scalar),
        Ok(Column::Int(1))
    );
    assert_eq!(
        read_column_value(&mut source, ColumnType::Bigint, CollectionSpec::Scalar),
        Ok(Column::Null)
    );
    assert_eq!(
        read_column_value(&mut source, ColumnType::Text, CollectionSpec::Scalar),
        Ok(text("end"))
    );
    assert_eq!(source.remaining(), 0);
    assert_eq!(
        read_column_value(&mut source, ColumnType::Text, CollectionSpec::Scalar),
        Err(ReadError::Truncated(4))
    );
}

#[test]
fn reader_reads_numbers_and_bytes() {
    let mut source = ByteReader::new(vec![
        0x80, 0, 0, 1, 0x80, 0, 0, 1, 0xff, 0, 0, 0, 0, 0, 0, 2, 0xff, 0, 0, 0, 0, 0, 0, 2, 7, 8,
        9,
    ]);
    assert_eq!(source.position(), 0);
    assert_eq!(source.remaining(), 27);
    assert_eq!(source.read_u32(), Ok(0x8000_0001));
    assert_eq!(source.read_i32(), Ok(-0x7fff_ffff));
    assert_eq!(source.read_u64(), Ok(0xff00_0000_0000_0002));
    assert_eq!(source.read_i64(), Ok(-0x00ff_ffff_ffff_fffe));
    assert_eq!(source.position(), 24);
    assert_eq!(source.read_bytes(2), Ok(vec![7, 8]));
    assert_eq!(source.read_bytes(0), Ok(vec![]));
    assert_eq!(source.read_u32(), Err(ReadError::Truncated(3)));
    assert_eq!(source.read_i32(), Err(ReadError::Truncated(3)));
    assert_eq!(source.read_u64(), Err(ReadError::Truncated(7)));
    assert_eq!(source.read_i64(), Err(ReadError::Truncated(7)));
    assert_eq!(source.read_bytes(5), Err(ReadError::Truncated(4)));
    assert_eq!(source.position(), 26);
    assert_eq!(source.read_bytes(1), Ok(vec![9]));
    assert_eq!(source.remaining(), 0);
}
