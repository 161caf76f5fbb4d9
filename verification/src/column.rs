//! The decoded side of the type model: column types, collection shapes and
//! decoded column values.

use vstd::prelude::*;

verus! {

/// The declared type of a result column.
///
/// Every type that is not named by the decoder travels as
/// variable-length text.
#[derive(Clone, Copy, Debug, PartialEq, Eq, Structural)]
pub enum ColumnType {
    Custom,
    Ascii,
    Bigint,
    Blob,
    Boolean,
    Counter,
    Decimal,
    Double,
    Float,
    Int,
    Text,
    Timestamp,
    Uuid,
    Varchar,
    Varint,
    Timeuuid,
    Inet,
    CqlList,
    CqlMap,
    CqlSet,
}

/// The element types of a collection column.
#[derive(Clone, Copy, Debug, PartialEq, Eq, Structural)]
pub enum CollectionSpec {
    /// The column is no collection.
    Scalar,
    /// A list with elements of the given type.
    CqlList(ColumnType),
    /// A set with elements of the given type.
    CqlSet(ColumnType),
    /// A map with keys and values of the given types.
    CqlMap(ColumnType, ColumnType),
}

/// A decoded column value.
///
/// Floating-point columns hold the IEEE 754 bit pattern that was on the
/// wire.
#[derive(Debug, PartialEq, Eq)]
pub enum Column {
    /// An absent value.
    Null,
    /// The bits of a 32-bit float.
    Float(u32),
    /// The bits of a 64-bit float.
    Double(u64),
    Int(i32),
    Bigint(i64),
    /// Milliseconds since the epoch.
    Timestamp(i64),
    /// Text, or the hyphenated text of a UUID.
    String(String),
    /// The elements of a set, in wire order.
    CqlSet(Vec<Column>),
    /// The elements of a list, in wire order.
    CqlList(Vec<Column>),
    /// The entries of a map, in wire order.
    CqlMap(Vec<(Column, Column)>),
}

/// The mathematical value of a decoded column.
pub ghost enum Value {
    Null,
    Float(u32),
    Double(u64),
    Int(i32),
    Bigint(i64),
    Timestamp(i64),
    Text(Seq<char>),
    CqlSet(Seq<Value>),
    CqlList(Seq<Value>),
    CqlMap(Seq<(Value, Value)>),
}

/// The mathematical value that a decoded column stands for.
pub open spec fn value_of(column: Column) -> Value
    decreases column,
{
    match column {
        Column::Null => Value::Null,
        Column::Float(bits) => Value::Float(bits),
        Column::Double(bits) => Value::Double(bits),
        Column::Int(n) => Value::Int(n),
        Column::Bigint(n) => Value::Bigint(n),
        Column::Timestamp(ms) => Value::Timestamp(ms),
        Column::String(s) => Value::Text(s@),
        Column::CqlSet(items) => Value::CqlSet(
            Seq::new(
                items@.len(),
                |i: int|
                    if 0 <= i < items@.len() {
                        value_of(items@[i])
                    } else {
                        Value::Null
                    },
            ),
        ),
        Column::CqlList(items) => Value::CqlList(
            Seq::new(
                items@.len(),
                |i: int|
                    if 0 <= i < items@.len() {
                        value_of(items@[i])
                    } else {
                        Value::Null
                    },
            ),
        ),
        Column::CqlMap(pairs) => Value::CqlMap(
            Seq::new(
                pairs@.len(),
                |i: int|
                    if 0 <= i < pairs@.len() {
                        (value_of(pairs@[i].0), value_of(pairs@[i].1))
                    } else {
                        (Value::Null, Value::Null)
                    },
            ),
        ),
    }
}

impl View for Column {
    type V = Value;

    open spec fn view(&self) -> Value {
        value_of(*self)
    }
}

/// The views of a sequence of columns, in order.
pub open spec fn values_of(items: Seq<Column>) -> Seq<Value> {
    Seq::new(items.len(), |i: int| items[i]@)
}

/// The views of a sequence of key/value pairs, in order.
pub open spec fn entries_of(pairs: Seq<(Column, Column)>) -> Seq<(Value, Value)> {
    Seq::new(pairs.len(), |i: int| (pairs[i].0@, pairs[i].1@))
}

/// The view of a set is the views of its elements.
pub proof fn lemma_view_of_set(items: Vec<Column>)
    ensures
        Column::CqlSet(items)@ == Value::CqlSet(values_of(items@)),
{
    assert(Column::CqlSet(items)@->CqlSet_0 =~= values_of(items@));
}

/// The view of a list is the views of its elements.
pub proof fn lemma_view_of_list(items: Vec<Column>)
    ensures
        Column::CqlList(items)@ == Value::CqlList(values_of(items@)),
{
    assert(Column::CqlList(items)@->CqlList_0 =~= values_of(items@));
}

/// The view of a map is the views of its entries.
pub proof fn lemma_view_of_map(pairs: Vec<(Column, Column)>)
    ensures
        Column::CqlMap(pairs)@ == Value::CqlMap(entries_of(pairs@)),
{
    assert(Column::CqlMap(pairs)@->CqlMap_0 =~= entries_of(pairs@));
}

} // verus!
