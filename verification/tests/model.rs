use cql_codec::column::CollectionSpec;
use cql_codec::column::Column;
use cql_codec::column::ColumnType;
use cql_codec::request::BoundColumn;
use cql_codec::request::StartupOptions;
use cql_codec::request::BATCH_FLAG_NONE;
use cql_codec::request::BATCH_KIND_PREPARED;
use cql_codec::request::BATCH_KIND_SIMPLE;
use cql_codec::request::BATCH_TYPE_LOGGED;
use cql_codec::request::FRAME_FLAGS;
use cql_codec::request::PROTOCOL_VERSION;
use cql_codec::request::QUERY_FLAG_NONE;
use cql_codec::request::QUERY_FLAG_VALUES;
use cql_codec::request::STREAM_ID;
use cql_codec::timestamp::Timestamp;

fn pairs(options: &StartupOptions) -> Vec<(String, String)> {
    options.entries().clone()
}

fn pair(key: &str, value: &str) -> (String, String) {
    (key.to_string(), value.to_string())
}

#[test]
fn fixed_wire_values() {
    assert_eq!(PROTOCOL_VERSION, 3);
    assert_eq!(FRAME_FLAGS, 0);
    assert_eq!(STREAM_ID, 1);
    assert_eq!(QUERY_FLAG_NONE, 0);
    assert_eq!(QUERY_FLAG_VALUES, 1);
    assert_eq!(BATCH_TYPE_LOGGED, 0);
    assert_eq!(BATCH_FLAG_NONE, 0);
    assert_eq!(BATCH_KIND_SIMPLE, 0);
    assert_eq!(BATCH_KIND_PREPARED, 1);
}

#[test]
fn new_options_are_empty() {
    let options = StartupOptions::new();
    assert_eq!(options.len(), 0);
    assert_eq!(pairs(&options), vec![]);
}

#[test]
fn new_keys_go_to_the_end() {
    let mut options = StartupOptions::new();
    options.insert("b".to_string(), "1".to_string());
    options.insert("a".to_string(), "2".to_string());
    options.insert("c".to_string(), "3".to_string());
    assert_eq!(options.len(), 3);
    assert_eq!(pairs(&options), vec![pair("b", "1"), pair("a", "2"), pair("c", "3")]);
}

#[test]
fn a_key_that_is_set_keeps_its_place() {
    let mut options = StartupOptions::new();
    options.insert("b".to_string(), "1".to_string());
    options.insert("a".to_string(), "2".to_string());
    options.insert("b".to_string(), "9".to_string());
    assert_eq!(options.len(), 2);
    assert_eq!(pairs(&options), vec![pair("b", "9"), pair("a", "2")]);
    options.insert("a".to_string(), "".to_string());
    assert_eq!(pairs(&options), vec![pair("b", "9"), pair("a", "")]);
}

#[test]
fn timestamp_needs_fields_that_can_be_rendered() {
    assert!(Timestamp::new(112, 1, 22, 14, 53, 18, 0).is_some());
    assert!(Timestamp::new(-1900, 0, 1, 0, 0, 0, 0).is_some());
    assert!(Timestamp::new(i32::MAX - 1900, 0, 1, 0, 0, 0, 0).is_some());
    assert!(Timestamp::new(i32::MAX - 1899, 0, 1, 0, 0, 0, 0).is_none());
    assert!(Timestamp::new(i32::MAX, 0, 1, 0, 0, 0, 0).is_none());
    assert!(Timestamp::new(100, i32::MAX - 1, 1, 0, 0, 0, 0).is_some());
    assert!(Timestamp::new(100, i32::MAX, 1, 0, 0, 0, 0).is_none());
    assert!(Timestamp::new(100, 0, 1, 0, 0, 0, i32::MIN + 1).is_some());
    assert!(Timestamp::new(100, 0, 1, 0, 0, 0, i32::MIN).is_none());
}

#[test]
fn timestamp_text_of_edge_fields() {
    let early = Timestamp::new(-1900, 0, 1, 0, 0, 0, 0).unwrap();
    assert_eq!(early.to_rfc3339(), "0-01-01T00:00:00Z");
    let leap = Timestamp::new(116, 11, 31, 23, 59, 60, -60).unwrap();
    assert_eq!(leap.to_rfc3339(), "2016-12-31T23:59:60-00:01");
}

#[test]
fn timestamps_compare_by_their_fields() {
    let a = Timestamp::new(100, 0, 1, 2, 3, 4, 0).unwrap();
    let b = Timestamp::new(100, 0, 1, 2, 3, 4, 0).unwrap();
    let c = Timestamp::new(100, 0, 1, 2, 3, 5, 0).unwrap();
    assert_eq!(a, b);
    assert_ne!(a, c);
    assert_eq!(BoundColumn::CqlTimestamp(a), BoundColumn::CqlTimestamp(b));
}

#[test]
fn columns_compare_by_their_contents() {
    assert_eq!(Column::Null, Column::Null);
    assert_ne!(Column::Int(1), Column::Bigint(1));
    assert_ne!(Column::CqlSet(vec![Column::Int(1)]), Column::CqlList(vec![Column::Int(1)]));
    assert_eq!(
        Column::CqlMap(vec![(Column::Int(1), Column::String("a".to_string()))]),
        Column::CqlMap(vec![(Column::Int(1), Column::String("a".to_string()))])
    );
    assert_ne!(ColumnType::CqlSet, ColumnType::CqlList);
    assert_eq!(CollectionSpec::CqlSet(ColumnType::Int), CollectionSpec::CqlSet(ColumnType::Int));
    assert_ne!(CollectionSpec::CqlSet(ColumnType::Int), CollectionSpec::Scalar);
}
