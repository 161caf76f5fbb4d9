//! Decoding of one typed, length-prefixed column value.

use crate::column::CollectionSpec;
use crate::column::Column;
use crate::column::ColumnType;
use crate::column::Value;
use crate::column::entries_of;
use crate::column::lemma_view_of_list;
use crate::column::lemma_view_of_map;
use crate::column::lemma_view_of_set;
use crate::column::values_of;
use crate::endian::be32_signed;
use crate::endian::be32_unsigned;
use crate::endian::be64_signed;
use crate::endian::be64_unsigned;
use crate::reader::ByteReader;
use crate::reader::ReadError;
use crate::reader::missing_at;
use crate::text::hyphenated_text;
use crate::text::string_from_utf8;
use crate::text::uuid_hyphenated;
use vstd::prelude::*;
use vstd::utf8::decode_utf8;
use vstd::utf8::valid_utf8;

verus! {

/// The outcome of decoding at some offset: where the source stands
/// afterwards, and what was decoded or why decoding failed.
pub ghost struct Decoded<T> {
    pub next: int,
    pub result: Result<T, ReadError>,
}

/// Whether a value of this type is read as a fixed number of bytes,
/// whatever its length prefix says.
pub open spec fn is_fixed_width(ty: ColumnType) -> bool {
    ty == ColumnType::Float || ty == ColumnType::Double || ty == ColumnType::Int
        || ty == ColumnType::Bigint || ty == ColumnType::Timestamp
}

/// Whether a scalar of this type is read as UTF-8 text. Collection types
/// count as text where they stand for an element of a collection.
pub open spec fn is_text(ty: ColumnType) -> bool {
    !is_fixed_width(ty) && ty != ColumnType::Timeuuid
}

/// Decoding of `width` bytes at `at` into a value.
pub open spec fn fixed_at(bytes: Seq<u8>, at: int, width: int, value: Value) -> Decoded<Value> {
    if at + width > bytes.len() {
        Decoded { next: at, result: Err(missing_at(bytes, at, width)) }
    } else {
        Decoded { next: at + width, result: Ok(value) }
    }
}

/// Decoding of the payload of a scalar value of type `ty` that stands at
/// `at` and whose length prefix was `len`, which is not negative.
///
/// Numbers and timestamps take their natural width and ignore `len`.
/// A time-based UUID and text take `len` bytes.
#[verifier::opaque]
pub open spec fn payload_at(bytes: Seq<u8>, at: int, ty: ColumnType, len: int) -> Decoded<Value> {
    let four = bytes.subrange(at, at + 4);
    let eight = bytes.subrange(at, at + 8);
    let raw = bytes.subrange(at, at + len);
    match ty {
        ColumnType::Float => fixed_at(bytes, at, 4, Value::Float(be32_unsigned(four) as u32)),
        ColumnType::Double => fixed_at(bytes, at, 8, Value::Double(be64_unsigned(eight) as u64)),
        ColumnType::Int => fixed_at(bytes, at, 4, Value::Int(be32_signed(four) as i32)),
        ColumnType::Bigint => fixed_at(bytes, at, 8, Value::Bigint(be64_signed(eight) as i64)),
        ColumnType::Timestamp => fixed_at(
            bytes,
            at,
            8,
            Value::Timestamp(be64_signed(eight) as i64),
        ),
        ColumnType::Timeuuid => if at + len > bytes.len() {
            Decoded { next: at, result: Err(missing_at(bytes, at, len)) }
        } else if len != 16 {
            Decoded { next: at + len, result: Err(ReadError::InvalidUuid) }
        } else {
            Decoded { next: at + len, result: Ok(Value::Text(hyphenated_text(raw))) }
        },
        _ => if at + len > bytes.len() {
            Decoded { next: at, result: Err(missing_at(bytes, at, len)) }
        } else if !valid_utf8(raw) {
            Decoded { next: at + len, result: Err(ReadError::InvalidUtf8) }
        } else {
            Decoded { next: at + len, result: Ok(Value::Text(decode_utf8(raw))) }
        },
    }
}

/// Decoding of one scalar value of type `ty` at `at`: a four-byte signed
/// length, then the payload unless the length is negative, which stands
/// for an absent value.
pub open spec fn scalar_at(bytes: Seq<u8>, at: int, ty: ColumnType) -> Decoded<Value> {
    if at + 4 > bytes.len() {
        Decoded { next: at, result: Err(missing_at(bytes, at, 4)) }
    } else if be32_signed(bytes.subrange(at, at + 4)) < 0 {
        Decoded { next: at + 4, result: Ok(Value::Null) }
    } else {
        payload_at(bytes, at + 4, ty, be32_signed(bytes.subrange(at, at + 4)))
    }
}

/// Decoding of `count` scalar values of type `ty` that follow one another
/// from `at`. A count that is not positive gives no value.
pub open spec fn elements_at(bytes: Seq<u8>, at: int, ty: ColumnType, count: int) -> Decoded<
    Seq<Value>,
>
    decreases count,
{
    if count <= 0 {
        Decoded { next: at, result: Ok(Seq::empty()) }
    } else {
        let first = scalar_at(bytes, at, ty);
        match first.result {
            Err(e) => Decoded { next: first.next, result: Err(e) },
            Ok(v) => {
                let rest = elements_at(bytes, first.next, ty, count - 1);
                match rest.result {
                    Err(e) => rest,
                    Ok(vs) => Decoded { next: rest.next, result: Ok(seq![v] + vs) },
                }
            },
        }
    }
}

/// Decoding of `count` map entries from `at`, each a key of type `key_ty`
/// followed by a value of type `value_ty`. The value is read whatever the
/// key is; an entry whose key is absent is left out of the result.
pub open spec fn entries_at(
    bytes: Seq<u8>,
    at: int,
    key_ty: ColumnType,
    value_ty: ColumnType,
    count: int,
) -> Decoded<Seq<(Value, Value)>>
    decreases count,
{
    if count <= 0 {
        Decoded { next: at, result: Ok(Seq::empty()) }
    } else {
        let key = scalar_at(bytes, at, key_ty);
        match key.result {
            Err(e) => Decoded { next: key.next, result: Err(e) },
            Ok(k) => {
                let value = scalar_at(bytes, key.next, value_ty);
                match value.result {
                    Err(e) => Decoded { next: value.next, result: Err(e) },
                    Ok(v) => {
                        let rest = entries_at(bytes, value.next, key_ty, value_ty, count - 1);
                        match rest.result {
                            Err(e) => rest,
                            Ok(es) => Decoded {
                                next: rest.next,
                                result: Ok(
                                    if k is Null {
                                        es
                                    } else {
                                        seq![(k, v)] + es
                                    },
                                ),
                            },
                        }
                    },
                }
            },
        }
    }
}

/// Decoding of the body of a collection value of type `ty` at `at`: a
/// four-byte signed count, then the elements that `spec` describes.
/// Where `spec` is not of the shape of `ty`, only the count is read and
/// the value is absent.
#[verifier::opaque]
pub open spec fn collection_at(bytes: Seq<u8>, at: int, ty: ColumnType, spec: CollectionSpec) -> Decoded<
    Value,
>
    recommends
        ty == ColumnType::CqlSet || ty == ColumnType::CqlList || ty == ColumnType::CqlMap,
{
    let count = be32_signed(bytes.subrange(at, at + 4));
    if at + 4 > bytes.len() {
        Decoded { next: at, result: Err(missing_at(bytes, at, 4)) }
    } else {
        match (ty, spec) {
            (ColumnType::CqlSet, CollectionSpec::CqlSet(elem)) => {
                let items = elements_at(bytes, at + 4, elem, count);
                match items.result {
                    Ok(vs) => Decoded { next: items.next, result: Ok(Value::CqlSet(vs)) },
                    Err(e) => Decoded { next: items.next, result: Err(e) },
                }
            },
            (ColumnType::CqlList, CollectionSpec::CqlList(elem)) => {
                let items = elements_at(bytes, at + 4, elem, count);
                match items.result {
                    Ok(vs) => Decoded { next: items.next, result: Ok(Value::CqlList(vs)) },
                    Err(e) => Decoded { next: items.next, result: Err(e) },
                }
            },
            (ColumnType::CqlMap, CollectionSpec::CqlMap(key_ty, value_ty)) => {
                let entries = entries_at(bytes, at + 4, key_ty, value_ty, count);
                match entries.result {
                    Ok(es) => Decoded { next: entries.next, result: Ok(Value::CqlMap(es)) },
                    Err(e) => Decoded { next: entries.next, result: Err(e) },
                }
            },
            _ => Decoded { next: at + 4, result: Ok(Value::Null) },
        }
    }
}

/// Whether `ty` is one of the three collection types.
pub open spec fn is_collection(ty: ColumnType) -> bool {
    ty == ColumnType::CqlSet || ty == ColumnType::CqlList || ty == ColumnType::CqlMap
}

/// Whether `spec` describes a collection of the type `ty`.
pub open spec fn shape_matches(ty: ColumnType, spec: CollectionSpec) -> bool {
    match (ty, spec) {
        (ColumnType::CqlSet, CollectionSpec::CqlSet(_)) => true,
        (ColumnType::CqlList, CollectionSpec::CqlList(_)) => true,
        (ColumnType::CqlMap, CollectionSpec::CqlMap(_, _)) => true,
        _ => false,
    }
}

/// The length prefix of the value at `at`: four bytes read as a signed
/// number.
pub open spec fn length_at(bytes: Seq<u8>, at: int) -> int
    recommends
        0 <= at,
        at + 4 <= bytes.len(),
{
    be32_signed(bytes.subrange(at, at + 4))
}

/// Decoding of one column value of type `ty` at `at`: a four-byte signed
/// length, then nothing if the length is negative, the body of a
/// collection for a collection type, and the payload of a scalar
/// otherwise.
pub open spec fn value_at(bytes: Seq<u8>, at: int, ty: ColumnType, spec: CollectionSpec) -> Decoded<
    Value,
> {
    if at + 4 > bytes.len() {
        Decoded { next: at, result: Err(missing_at(bytes, at, 4)) }
    } else if be32_signed(bytes.subrange(at, at + 4)) < 0 {
        Decoded { next: at + 4, result: Ok(Value::Null) }
    } else if is_collection(ty) {
        collection_at(bytes, at + 4, ty, spec)
    } else {
        payload_at(bytes, at + 4, ty, be32_signed(bytes.subrange(at, at + 4)))
    }
}

/// Whether the exec outcome `r`, with the source left at `offset`, is the
/// decoding `d`.
pub open spec fn column_matches(r: Result<Column, ReadError>, offset: int, d: Decoded<Value>) -> bool {
    &&& offset == d.next
    &&& match r {
        Ok(c) => d.result == Ok::<Value, ReadError>(c@),
        Err(e) => d.result == Err::<Value, ReadError>(e),
    }
}

/// Reads the payload of a scalar value whose length prefix was `len`.
fn read_payload(buf: &mut ByteReader, data_type: ColumnType, len: i32) -> (r: Result<
    Column,
    ReadError,
>)
    requires
        len >= 0,
    ensures
        final(buf).bytes() == old(buf).bytes(),
        column_matches(
            r,
            final(buf).offset(),
            payload_at(old(buf).bytes(), old(buf).offset(), data_type, len as int),
        ),
{
    reveal(payload_at);
    match data_type {
        ColumnType::Float => match buf.read_u32() {
            Ok(bits) => Ok(Column::Float(bits)),
            Err(e) => Err(e),
        },
        ColumnType::Double => match buf.read_u64() {
            Ok(bits) => Ok(Column::Double(bits)),
            Err(e) => Err(e),
        },
        ColumnType::Int => match buf.read_i32() {
            Ok(n) => Ok(Column::Int(n)),
            Err(e) => Err(e),
        },
        ColumnType::Bigint => match buf.read_i64() {
            Ok(n) => Ok(Column::Bigint(n)),
            Err(e) => Err(e),
        },
        ColumnType::Timestamp => match buf.read_i64() {
            Ok(ms) => Ok(Column::Timestamp(ms)),
            Err(e) => Err(e),
        },
        ColumnType::Timeuuid => match buf.read_bytes(len as usize) {
            Ok(raw) => match uuid_hyphenated(raw.as_slice()) {
                Ok(s) => Ok(Column::String(s)),
                Err(_) => Err(ReadError::InvalidUuid),
            },
            Err(e) => Err(e),
        },
        _ => match buf.read_bytes(len as usize) {
            Ok(raw) => match string_from_utf8(raw) {
                Ok(s) => Ok(Column::String(s)),
                Err(_) => Err(ReadError::InvalidUtf8),
            },
            Err(e) => Err(e),
        },
    }
}

/// Decodes one element of a collection: a scalar value of type
/// `data_type`.
///
/// The source is left after the last byte that was read. On an error
/// that is where the failing read began, or, for text or a UUID that was
/// read and found malformed, after its bytes.
pub fn read_collection_column_value(buf: &mut ByteReader, data_type: ColumnType) -> (r: Result<
    Column,
    ReadError,
>)
    ensures
        final(buf).bytes() == old(buf).bytes(),
        column_matches(
            r,
            final(buf).offset(),
            scalar_at(old(buf).bytes(), old(buf).offset(), data_type),
        ),
        // A negative length prefix is an absent value of four bytes,
        // whatever the type.
        old(buf).offset() + 4 <= old(buf).bytes().len() && length_at(
            old(buf).bytes(),
            old(buf).offset(),
        ) < 0 ==> r is Ok && r->Ok_0 is Null && final(buf).offset() == old(buf).offset() + 4,
        // Text that is not well-formed UTF-8 is an error.
        ({
            let at = old(buf).offset();
            let len = length_at(old(buf).bytes(), at);
            &&& is_text(data_type)
            &&& len >= 0
            &&& at + 4 + len <= old(buf).bytes().len()
            &&& !valid_utf8(old(buf).window(at + 4, len))
        }) ==> r == Err::<Column, ReadError>(ReadError::InvalidUtf8),
{
    reveal(payload_at);
    let len = match buf.read_i32() {
        Ok(len) => len,
        Err(e) => {
            return Err(e);
        },
    };
    if len < 0 {
        return Ok(Column::Null);
    }
    read_payload(buf, data_type, len)
}

/// The decoding `d` of a sequence, with `prefix` put before what it
/// decoded.
pub open spec fn after<T>(prefix: Seq<T>, d: Decoded<Seq<T>>) -> Decoded<Seq<T>> {
    Decoded {
        next: d.next,
        result: match d.result {
            Ok(items) => Ok(prefix + items),
            Err(e) => Err(e),
        },
    }
}

/// Reads `count` elements of type `data_type`, in order.
fn read_elements(buf: &mut ByteReader, data_type: ColumnType, count: i32) -> (r: Result<
    Vec<Column>,
    ReadError,
>)
    ensures
        final(buf).bytes() == old(buf).bytes(),
        final(buf).offset() == elements_at(
            old(buf).bytes(),
            old(buf).offset(),
            data_type,
            count as int,
        ).next,
        match r {
            Ok(items) => elements_at(
                old(buf).bytes(),
                old(buf).offset(),
                data_type,
                count as int,
            ).result == Ok::<Seq<Value>, ReadError>(values_of(items@)),
            Err(e) => elements_at(
                old(buf).bytes(),
                old(buf).offset(),
                data_type,
                count as int,
            ).result == Err::<Seq<Value>, ReadError>(e),
        },
{
    let ghost bytes = buf.bytes();
    let ghost start = buf.offset();
    let mut items: Vec<Column> = Vec::new();
    let mut i: i32 = 0;
    assert(values_of(items@) + Seq::<Value>::empty() =~= Seq::<Value>::empty());
    while i < count
        invariant
            0 <= i,
            bytes == old(buf).bytes(),
            start == old(buf).offset(),
            buf.bytes() == bytes,
            elements_at(bytes, start, data_type, count as int) == after(
                values_of(items@),
                elements_at(bytes, buf.offset(), data_type, count - i),
            ),
        decreases count - i,
    {
        let ghost at = buf.offset();
        let ghost before = values_of(items@);
        match read_collection_column_value(buf, data_type) {
            Ok(item) => {
                items.push(item);
                proof {
                    let first = scalar_at(bytes, at, data_type);
                    let rest = elements_at(bytes, first.next, data_type, count - i - 1);
                    let v = first.result->Ok_0;
                    assert(values_of(items@) =~= before.push(v));
                    if rest.result is Ok {
                        assert(before + (seq![v] + rest.result->Ok_0) =~= before.push(v)
                            + rest.result->Ok_0);
                    }
                }
            },
            Err(e) => {
                return Err(e);
            },
        }
        i = i + 1;
    }
    assert(values_of(items@) + Seq::<Value>::empty() =~= values_of(items@));
    Ok(items)
}

/// Reads `count` map entries, in order, leaving out those whose key is
/// absent.
fn read_entries(
    buf: &mut ByteReader,
    key_type: ColumnType,
    value_type: ColumnType,
    count: i32,
) -> (r: Result<Vec<(Column, Column)>, ReadError>)
    ensures
        final(buf).bytes() == old(buf).bytes(),
        final(buf).offset() == entries_at(
            old(buf).bytes(),
            old(buf).offset(),
            key_type,
            value_type,
            count as int,
        ).next,
        match r {
            Ok(pairs) => entries_at(
                old(buf).bytes(),
                old(buf).offset(),
                key_type,
                value_type,
                count as int,
            ).result == Ok::<Seq<(Value, Value)>, ReadError>(entries_of(pairs@)),
            Err(e) => entries_at(
                old(buf).bytes(),
                old(buf).offset(),
                key_type,
                value_type,
                count as int,
            ).result == Err::<Seq<(Value, Value)>, ReadError>(e),
        },
{
    let ghost bytes = buf.bytes();
    let ghost start = buf.offset();
    let mut pairs: Vec<(Column, Column)> = Vec::new();
    let mut i: i32 = 0;
    assert(entries_of(pairs@) + Seq::<(Value, Value)>::empty() =~= Seq::<(Value, Value)>::empty());
    while i < count
        invariant
            0 <= i,
            bytes == old(buf).bytes(),
            start == old(buf).offset(),
            buf.bytes() == bytes,
            entries_at(bytes, start, key_type, value_type, count as int) == after(
                entries_of(pairs@),
                entries_at(bytes, buf.offset(), key_type, value_type, count - i),
            ),
        decreases count - i,
    {
        let ghost at = buf.offset();
        let ghost before = entries_of(pairs@);
        let key = match read_collection_column_value(buf, key_type) {
            Ok(key) => key,
            Err(e) => {
                return Err(e);
            },
        };
        let ghost mid = buf.offset();
        let value = match read_collection_column_value(buf, value_type) {
            Ok(value) => value,
            Err(e) => {
                return Err(e);
            },
        };
        let ghost k = key@;
        let ghost v = value@;
        let ghost rest = entries_at(bytes, buf.offset(), key_type, value_type, count - i - 1);
        match key {
            Column::Null => {
                proof {
                    assert(k is Null);
                }
            },
            _ => {
                pairs.push((key, value));
                proof {
                    assert(!(k is Null));
                    assert(entries_of(pairs@) =~= before.push((k, v)));
                    if rest.result is Ok {
                        assert(before + (seq![(k, v)] + rest.result->Ok_0) =~= before.push((k, v))
                            + rest.result->Ok_0);
                    }
                }
            },
        }
        i = i + 1;
    }
    assert(entries_of(pairs@) + Seq::<(Value, Value)>::empty() =~= entries_of(pairs@));
    Ok(pairs)
}

/// Decodes one column value of type `data_type` from `buf`.
///
/// A negative length prefix gives `Column::Null` and nothing more is
/// read. For a collection type the element count is read next; the
/// elements follow only if `collection_spec` has the shape of
/// `data_type`, and the value is `Column::Null` otherwise.
///
/// The source is left after the last byte that was read. On an error
/// that is where the failing read began, or, for text or a UUID that was
/// read and found malformed, after its bytes.
pub fn read_column_value(
    buf: &mut ByteReader,
    data_type: ColumnType,
    collection_spec: CollectionSpec,
) -> (r: Result<Column, ReadError>)
    ensures
        final(buf).bytes() == old(buf).bytes(),
        column_matches(
            r,
            final(buf).offset(),
            value_at(old(buf).bytes(), old(buf).offset(), data_type, collection_spec),
        ),
        // A negative length prefix is an absent value of four bytes,
        // whatever the type.
        old(buf).offset() + 4 <= old(buf).bytes().len() && length_at(
            old(buf).bytes(),
            old(buf).offset(),
        ) < 0 ==> r is Ok && r->Ok_0 is Null && final(buf).offset() == old(buf).offset() + 4,
        // Text that is not well-formed UTF-8 is an error.
        ({
            let at = old(buf).offset();
            let len = length_at(old(buf).bytes(), at);
            &&& is_text(data_type)
            &&& !is_collection(data_type)
            &&& len >= 0
            &&& at + 4 + len <= old(buf).bytes().len()
            &&& !valid_utf8(old(buf).window(at + 4, len))
        }) ==> r == Err::<Column, ReadError>(ReadError::InvalidUtf8),
        // A collection whose description has another shape is an absent
        // value: its length and its count are read, its elements are not.
        ({
            &&& is_collection(data_type)
            &&& !shape_matches(data_type, collection_spec)
            &&& old(buf).offset() + 8 <= old(buf).bytes().len()
            &&& length_at(old(buf).bytes(), old(buf).offset()) >= 0
        }) ==> r is Ok && r->Ok_0 is Null && final(buf).offset() == old(buf).offset() + 8,
{
    reveal(payload_at);
    reveal(collection_at);
    let len = match buf.read_i32() {
        Ok(len) => len,
        Err(e) => {
            return Err(e);
        },
    };
    if len < 0 {
        return Ok(Column::Null);
    }
    match data_type {
        ColumnType::CqlSet => {
            let count = match buf.read_i32() {
                Ok(count) => count,
                Err(e) => {
                    return Err(e);
                },
            };
            match collection_spec {
                CollectionSpec::CqlSet(element_type) => match read_elements(
                    buf,
                    element_type,
                    count,
                ) {
                    Ok(items) => {
                        let column = Column::CqlSet(items);
                        proof {
                            lemma_view_of_set(items);
                        }
                        Ok(column)
                    },
                    Err(e) => Err(e),
                },
                _ => Ok(Column::Null),
            }
        },
        ColumnType::CqlList => {
            let count = match buf.read_i32() {
                Ok(count) => count,
                Err(e) => {
                    return Err(e);
                },
            };
            match collection_spec {
                CollectionSpec::CqlList(element_type) => match read_elements(
                    buf,
                    element_type,
                    count,
                ) {
                    Ok(items) => {
                        let column = Column::CqlList(items);
                        proof {
                            lemma_view_of_list(items);
                        }
                        Ok(column)
                    },
                    Err(e) => Err(e),
                },
                _ => Ok(Column::Null),
            }
        },
        ColumnType::CqlMap => {
            let count = match buf.read_i32() {
                Ok(count) => count,
                Err(e) => {
                    return Err(e);
                },
            };
            match collection_spec {
                CollectionSpec::CqlMap(key_type, value_type) => match read_entries(
                    buf,
                    key_type,
                    value_type,
                    count,
                ) {
                    Ok(pairs) => {
                        let column = Column::CqlMap(pairs);
                        proof {
                            lemma_view_of_map(pairs);
                        }
                        Ok(column)
                    },
                    Err(e) => Err(e),
                },
                _ => Ok(Column::Null),
            }
        },
        _ => read_payload(buf, data_type, len),
    }
}

} // verus!
