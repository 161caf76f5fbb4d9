//! The wire form of decoded values, and the law that decoding a map gives
//! back the entries that were put on the wire.

use crate::column::CollectionSpec;
use crate::column::ColumnType;
use crate::column::Value;
use crate::endian::be32_bytes;
use crate::endian::be32_signed;
use crate::endian::be64_bytes;
use crate::endian::lemma_be32_signed_of_bytes;
use crate::endian::lemma_be32_unsigned_of_bytes;
use crate::endian::lemma_be64_signed_of_bytes;
use crate::endian::lemma_be64_unsigned_of_bytes;
use crate::reader::ReadError;
use crate::reading::collection_at;
use crate::reading::entries_at;
use crate::reading::is_text;
use crate::reading::payload_at;
use crate::reading::scalar_at;
use crate::reading::value_at;
use crate::reading::Decoded;
use crate::text::hyphenated_text;
use vstd::prelude::*;
use vstd::utf8::encode_utf8;
use vstd::utf8::encode_utf8_decode_utf8;
use vstd::utf8::encode_utf8_valid_utf8;

verus! {

/// Whether `text` is the hyphenated text of some sixteen bytes.
pub open spec fn is_uuid_text(text: Seq<char>) -> bool {
    exists|raw: Seq<u8>| raw.len() == 16 && hyphenated_text(raw) == text
}

/// Sixteen bytes whose hyphenated text is `text`.
pub open spec fn uuid_bytes(text: Seq<char>) -> Seq<u8>
    recommends
        is_uuid_text(text),
{
    choose|raw: Seq<u8>| raw.len() == 16 && hyphenated_text(raw) == text
}

/// Whether a scalar column of type `ty` can carry the value `v`.
pub open spec fn carries(ty: ColumnType, v: Value) -> bool {
    match v {
        Value::Null => true,
        Value::Float(_) => ty == ColumnType::Float,
        Value::Double(_) => ty == ColumnType::Double,
        Value::Int(_) => ty == ColumnType::Int,
        Value::Bigint(_) => ty == ColumnType::Bigint,
        Value::Timestamp(_) => ty == ColumnType::Timestamp,
        Value::Text(text) => if ty == ColumnType::Timeuuid {
            is_uuid_text(text)
        } else {
            is_text(ty) && encode_utf8(text).len() <= i32::MAX
        },
        _ => false,
    }
}

/// The payload of the scalar value `v` in a column of type `ty`.
pub open spec fn scalar_payload(ty: ColumnType, v: Value) -> Seq<u8> {
    match v {
        Value::Float(bits) => be32_bytes(bits as int),
        Value::Double(bits) => be64_bytes(bits as int),
        Value::Int(n) => be32_bytes(n as int),
        Value::Bigint(n) => be64_bytes(n as int),
        Value::Timestamp(ms) => be64_bytes(ms as int),
        Value::Text(text) => if ty == ColumnType::Timeuuid {
            uuid_bytes(text)
        } else {
            encode_utf8(text)
        },
        _ => Seq::empty(),
    }
}

/// The wire form of the scalar value `v` in a column of type `ty`: the
/// length of the payload as four bytes and the payload, or a length of
/// -1 alone for an absent value.
pub open spec fn scalar_wire(ty: ColumnType, v: Value) -> Seq<u8> {
    if v is Null {
        be32_bytes(-1)
    } else {
        be32_bytes(scalar_payload(ty, v).len() as int) + scalar_payload(ty, v)
    }
}

/// The wire forms of map entries, each key followed by its value.
pub open spec fn entries_wire(key_ty: ColumnType, value_ty: ColumnType, pairs: Seq<(Value, Value)>) -> Seq<
    u8,
>
    decreases pairs.len(),
{
    if pairs.len() == 0 {
        Seq::empty()
    } else {
        scalar_wire(key_ty, pairs[0].0) + scalar_wire(value_ty, pairs[0].1) + entries_wire(
            key_ty,
            value_ty,
            pairs.skip(1),
        )
    }
}

/// The body of a map on the wire: the number of entries as four bytes,
/// then the entries.
pub open spec fn map_body(key_ty: ColumnType, value_ty: ColumnType, pairs: Seq<(Value, Value)>) -> Seq<
    u8,
> {
    be32_bytes(pairs.len() as int) + entries_wire(key_ty, value_ty, pairs)
}

/// The wire form of a map value: the length of the body as four bytes,
/// then the body.
pub open spec fn map_wire(key_ty: ColumnType, value_ty: ColumnType, pairs: Seq<(Value, Value)>) -> Seq<
    u8,
> {
    be32_bytes(map_body(key_ty, value_ty, pairs).len() as int) + map_body(key_ty, value_ty, pairs)
}

/// The entries whose key is present, in order.
pub open spec fn with_key(pairs: Seq<(Value, Value)>) -> Seq<(Value, Value)> {
    pairs.filter(|pair: (Value, Value)| !(pair.0 is Null))
}

/// Whether every key and every value of `pairs` can be carried by its
/// column type.
pub open spec fn all_carried(key_ty: ColumnType, value_ty: ColumnType, pairs: Seq<(Value, Value)>) -> bool {
    forall|i: int|
        0 <= i < pairs.len() ==> carries(key_ty, #[trigger] pairs[i].0) && carries(
            value_ty,
            pairs[i].1,
        )
}

/// The wire form of a scalar that its column type can carry has four
/// bytes at least and fits a 32-bit length.
pub proof fn lemma_scalar_wire_len(ty: ColumnType, v: Value)
    requires
        carries(ty, v),
    ensures
        4 <= scalar_wire(ty, v).len() <= 4 + i32::MAX,
{
}

/// Decoding the wire form of a scalar gives the scalar back and stops
/// right after it, wherever the wire form stands in the source.
pub proof fn lemma_scalar_round_trip(bytes: Seq<u8>, at: int, ty: ColumnType, v: Value)
    requires
        carries(ty, v),
        0 <= at,
        at + scalar_wire(ty, v).len() <= bytes.len(),
        bytes.subrange(at, at + scalar_wire(ty, v).len()) == scalar_wire(ty, v),
    ensures
        scalar_at(bytes, at, ty) == (Decoded {
            next: at + scalar_wire(ty, v).len(),
            result: Ok::<Value, ReadError>(v),
        }),
{
    reveal(payload_at);
    let wire = scalar_wire(ty, v);
    let payload = scalar_payload(ty, v);
    let prefix = bytes.subrange(at, at + 4);
    assert(prefix =~= wire.subrange(0, 4));
    if v is Null {
        assert(prefix =~= be32_bytes(-1));
        lemma_be32_signed_of_bytes(-1);
    } else {
        let len = payload.len() as int;
        assert(prefix =~= be32_bytes(len));
        lemma_be32_signed_of_bytes(len);
        let raw = bytes.subrange(at + 4, at + 4 + len);
        assert(raw =~= wire.subrange(4, 4 + len));
        assert(raw =~= payload);
        match v {
            Value::Float(bits) => {
                lemma_be32_unsigned_of_bytes(bits as int);
            },
            Value::Double(bits) => {
                lemma_be64_unsigned_of_bytes(bits as int);
            },
            Value::Int(n) => {
                lemma_be32_signed_of_bytes(n as int);
            },
            Value::Bigint(n) => {
                lemma_be64_signed_of_bytes(n as int);
            },
            Value::Timestamp(ms) => {
                lemma_be64_signed_of_bytes(ms as int);
            },
            Value::Text(text) => {
                if ty != ColumnType::Timeuuid {
                    encode_utf8_valid_utf8(text);
                    encode_utf8_decode_utf8(text);
                }
            },
            _ => {},
        }
    }
}

/// The first entry and the entries after it can be carried if all can.
pub proof fn lemma_all_carried_skip(key_ty: ColumnType, value_ty: ColumnType, pairs: Seq<(Value, Value)>)
    requires
        all_carried(key_ty, value_ty, pairs),
        pairs.len() > 0,
    ensures
        carries(key_ty, pairs[0].0),
        carries(value_ty, pairs[0].1),
        all_carried(key_ty, value_ty, pairs.skip(1)),
{
    let rest = pairs.skip(1);
    assert(carries(key_ty, pairs[0].0) && carries(value_ty, pairs[0].1));
    assert forall|i: int| 0 <= i < rest.len() implies carries(key_ty, #[trigger] rest[i].0)
        && carries(value_ty, rest[i].1) by {
        assert(rest[i] == pairs[i + 1]);
        assert(carries(key_ty, pairs[i + 1].0) && carries(value_ty, pairs[i + 1].1));
    }
}

/// The entries with a key are those of the entries after the first,
/// with the first before them if its key is present.
pub proof fn lemma_with_key_skip(pairs: Seq<(Value, Value)>)
    requires
        pairs.len() > 0,
    ensures
        with_key(pairs) == if pairs[0].0 is Null {
            with_key(pairs.skip(1))
        } else {
            seq![pairs[0]] + with_key(pairs.skip(1))
        },
{
    let keep = |pair: (Value, Value)| !(pair.0 is Null);
    let first = seq![pairs[0]];
    let rest = pairs.skip(1);
    reveal(Seq::filter);
    assert(pairs =~= first + rest);
    Seq::filter_distributes_over_add(first, rest, keep);
    assert(first.drop_last() =~= Seq::<(Value, Value)>::empty());
    assert(first.drop_last().filter(keep) =~= Seq::<(Value, Value)>::empty());
    if pairs[0].0 is Null {
        assert(first.filter(keep) =~= Seq::<(Value, Value)>::empty());
        assert(with_key(pairs) =~= with_key(rest));
    } else {
        assert(first.filter(keep) =~= first);
    }
}

/// Where the wire form of entries stands in a source, the wire forms of
/// the first key, of the first value and of the remaining entries stand
/// one after the other.
pub proof fn lemma_entries_wire_split(
    bytes: Seq<u8>,
    at: int,
    key_wire: Seq<u8>,
    value_wire: Seq<u8>,
    rest_wire: Seq<u8>,
)
    requires
        0 <= at,
        at + (key_wire + value_wire + rest_wire).len() <= bytes.len(),
        bytes.subrange(at, at + (key_wire + value_wire + rest_wire).len()) == key_wire
            + value_wire + rest_wire,
    ensures
        bytes.subrange(at, at + key_wire.len()) == key_wire,
        bytes.subrange(at + key_wire.len(), at + key_wire.len() + value_wire.len())
            == value_wire,
        bytes.subrange(
            at + key_wire.len() + value_wire.len(),
            at + key_wire.len() + value_wire.len() + rest_wire.len(),
        ) == rest_wire,
{
    let wire = key_wire + value_wire + rest_wire;
    let mid = key_wire.len() as int;
    let end = mid + value_wire.len();
    assert(bytes.subrange(at, at + mid) =~= wire.subrange(0, mid));
    assert(wire.subrange(0, mid) =~= key_wire);
    assert(bytes.subrange(at + mid, at + end) =~= wire.subrange(mid, end));
    assert(wire.subrange(mid, end) =~= value_wire);
    assert(bytes.subrange(at + end, at + end + rest_wire.len()) =~= wire.subrange(
        end,
        wire.len() as int,
    ));
    assert(wire.subrange(end, wire.len() as int) =~= rest_wire);
}

/// One step of decoding map entries: after a key and a value that
/// decode, the remaining entries are decoded, and the entry goes before
/// them if its key is present.
pub proof fn lemma_entries_at_step(
    bytes: Seq<u8>,
    at: int,
    key_ty: ColumnType,
    value_ty: ColumnType,
    count: int,
    key: Decoded<Value>,
    value: Decoded<Value>,
    rest: Decoded<Seq<(Value, Value)>>,
)
    requires
        count > 0,
        key == scalar_at(bytes, at, key_ty),
        key.result is Ok,
        value == scalar_at(bytes, key.next, value_ty),
        value.result is Ok,
        rest == entries_at(bytes, value.next, key_ty, value_ty, count - 1),
        rest.result is Ok,
    ensures
        entries_at(bytes, at, key_ty, value_ty, count) == (Decoded {
            next: rest.next,
            result: Ok::<Seq<(Value, Value)>, ReadError>(
                if key.result->Ok_0 is Null {
                    rest.result->Ok_0
                } else {
                    seq![(key.result->Ok_0, value.result->Ok_0)] + rest.result->Ok_0
                },
            ),
        }),
{
}

/// Decoding the wire forms of map entries gives back, in order, the
/// entries whose key is present, and stops right after the last entry.
pub proof fn lemma_entries_round_trip(
    bytes: Seq<u8>,
    at: int,
    key_ty: ColumnType,
    value_ty: ColumnType,
    pairs: Seq<(Value, Value)>,
)
    requires
        all_carried(key_ty, value_ty, pairs),
        0 <= at,
        at + entries_wire(key_ty, value_ty, pairs).len() <= bytes.len(),
        bytes.subrange(at, at + entries_wire(key_ty, value_ty, pairs).len()) == entries_wire(
            key_ty,
            value_ty,
            pairs,
        ),
    ensures
        entries_at(bytes, at, key_ty, value_ty, pairs.len() as int) == (Decoded {
            next: at + entries_wire(key_ty, value_ty, pairs).len(),
            result: Ok::<Seq<(Value, Value)>, ReadError>(with_key(pairs)),
        }),
    decreases pairs.len(),
{
    if pairs.len() == 0 {
        reveal(Seq::filter);
        assert(with_key(pairs) =~= Seq::<(Value, Value)>::empty());
    } else {
        let key_wire = scalar_wire(key_ty, pairs[0].0);
        let value_wire = scalar_wire(value_ty, pairs[0].1);
        let rest = pairs.skip(1);
        let rest_wire = entries_wire(key_ty, value_ty, rest);
        let mid = at + key_wire.len();
        let end = mid + value_wire.len();
        let key = Decoded { next: mid, result: Ok::<Value, ReadError>(pairs[0].0) };
        let value = Decoded { next: end, result: Ok::<Value, ReadError>(pairs[0].1) };
        let tail = Decoded {
            next: end + rest_wire.len(),
            result: Ok::<Seq<(Value, Value)>, ReadError>(with_key(rest)),
        };
        lemma_all_carried_skip(key_ty, value_ty, pairs);
        assert(entries_wire(key_ty, value_ty, pairs) == key_wire + value_wire + rest_wire);
        lemma_entries_wire_split(bytes, at, key_wire, value_wire, rest_wire);
        assert(scalar_at(bytes, at, key_ty) == key) by {
            lemma_scalar_round_trip(bytes, at, key_ty, pairs[0].0);
        }
        assert(scalar_at(bytes, mid, value_ty) == value) by {
            lemma_scalar_round_trip(bytes, mid, value_ty, pairs[0].1);
        }
        assert(entries_at(bytes, end, key_ty, value_ty, pairs.len() - 1) == tail) by {
            lemma_entries_round_trip(bytes, end, key_ty, value_ty, rest);
        }
        lemma_entries_at_step(bytes, at, key_ty, value_ty, pairs.len() as int, key, value, tail);
        lemma_with_key_skip(pairs);
    }
}

/// Where four bytes and a tail stand in a source, each stands in its
/// own place.
pub proof fn lemma_prefix_split(bytes: Seq<u8>, at: int, prefix: Seq<u8>, tail: Seq<u8>)
    requires
        0 <= at,
        prefix.len() == 4,
        at + 4 + tail.len() <= bytes.len(),
        bytes.subrange(at, at + 4 + tail.len()) == prefix + tail,
    ensures
        bytes.subrange(at, at + 4) == prefix,
        bytes.subrange(at + 4, at + 4 + tail.len()) == tail,
{
    let whole = prefix + tail;
    assert(bytes.subrange(at, at + 4) =~= whole.subrange(0, 4));
    assert(whole.subrange(0, 4) =~= prefix);
    assert(bytes.subrange(at + 4, at + 4 + tail.len()) =~= whole.subrange(4, whole.len() as int));
    assert(whole.subrange(4, whole.len() as int) =~= tail);
}

/// Decoding the body of a map gives back, in order, the entries whose
/// key is present, and stops right after the body.
pub proof fn lemma_map_body_round_trip(
    bytes: Seq<u8>,
    at: int,
    key_ty: ColumnType,
    value_ty: ColumnType,
    pairs: Seq<(Value, Value)>,
)
    requires
        all_carried(key_ty, value_ty, pairs),
        pairs.len() <= i32::MAX,
        0 <= at,
        at + map_body(key_ty, value_ty, pairs).len() <= bytes.len(),
        bytes.subrange(at, at + map_body(key_ty, value_ty, pairs).len()) == map_body(
            key_ty,
            value_ty,
            pairs,
        ),
    ensures
        collection_at(bytes, at, ColumnType::CqlMap, CollectionSpec::CqlMap(key_ty, value_ty)) == (
        Decoded {
            next: at + map_body(key_ty, value_ty, pairs).len(),
            result: Ok::<Value, ReadError>(Value::CqlMap(with_key(pairs))),
        }),
{
    reveal(collection_at);
    let count = be32_bytes(pairs.len() as int);
    let entries = entries_wire(key_ty, value_ty, pairs);
    lemma_prefix_split(bytes, at, count, entries);
    lemma_be32_signed_of_bytes(pairs.len() as int);
    lemma_entries_round_trip(bytes, at + 4, key_ty, value_ty, pairs);
}

/// Encoding entries as a map and decoding it as a map of the same key
/// and value types gives back the same entries in the same order, less
/// those whose key is absent, and reads the wire form to its end.
pub proof fn lemma_map_round_trip(key_ty: ColumnType, value_ty: ColumnType, pairs: Seq<(Value, Value)>)
    requires
        all_carried(key_ty, value_ty, pairs),
        map_body(key_ty, value_ty, pairs).len() <= i32::MAX,
    ensures
        value_at(
            map_wire(key_ty, value_ty, pairs),
            0,
            ColumnType::CqlMap,
            CollectionSpec::CqlMap(key_ty, value_ty),
        ) == (Decoded {
            next: map_wire(key_ty, value_ty, pairs).len() as int,
            result: Ok::<Value, ReadError>(Value::CqlMap(with_key(pairs))),
        }),
{
    let wire = map_wire(key_ty, value_ty, pairs);
    let body = map_body(key_ty, value_ty, pairs);
    let spec = CollectionSpec::CqlMap(key_ty, value_ty);
    assert(pairs.len() <= i32::MAX) by {
        lemma_entries_len(key_ty, value_ty, pairs);
    }
    assert(wire.len() == 4 + body.len());
    assert(wire.subrange(0, 4) == be32_bytes(body.len() as int) && wire.subrange(
        4,
        4 + body.len() as int,
    ) == body) by {
        assert(wire.subrange(0, 4 + body.len() as int) =~= be32_bytes(body.len() as int) + body);
        lemma_prefix_split(wire, 0, be32_bytes(body.len() as int), body);
    }
    assert(be32_signed(wire.subrange(0, 4)) == body.len()) by {
        lemma_be32_signed_of_bytes(body.len() as int);
    }
    assert(collection_at(wire, 4, ColumnType::CqlMap, spec) == (Decoded {
        next: wire.len() as int,
        result: Ok::<Value, ReadError>(Value::CqlMap(with_key(pairs))),
    })) by {
        lemma_map_body_round_trip(wire, 4, key_ty, value_ty, pairs);
    }
    assert(value_at(wire, 0, ColumnType::CqlMap, spec) == collection_at(
        wire,
        4,
        ColumnType::CqlMap,
        spec,
    ));
}

/// The entries whose key is absent, in order.
pub open spec fn without_key(pairs: Seq<(Value, Value)>) -> Seq<(Value, Value)> {
    pairs.filter(|pair: (Value, Value)| pair.0 is Null)
}

/// The entries with a key are as many as all the entries less those
/// whose key is absent.
pub proof fn lemma_with_key_count(pairs: Seq<(Value, Value)>)
    ensures
        with_key(pairs).len() == pairs.len() - without_key(pairs).len(),
    decreases pairs.len(),
{
    reveal(Seq::filter);
    if pairs.len() > 0 {
        lemma_with_key_count(pairs.drop_last());
    }
}

/// Entries take eight bytes each at least on the wire.
pub proof fn lemma_entries_len(key_ty: ColumnType, value_ty: ColumnType, pairs: Seq<(Value, Value)>)
    requires
        all_carried(key_ty, value_ty, pairs),
    ensures
        8 * pairs.len() <= entries_wire(key_ty, value_ty, pairs).len(),
    decreases pairs.len(),
{
    if pairs.len() > 0 {
        lemma_all_carried_skip(key_ty, value_ty, pairs);
        lemma_scalar_wire_len(key_ty, pairs[0].0);
        lemma_scalar_wire_len(value_ty, pairs[0].1);
        lemma_entries_len(key_ty, value_ty, pairs.skip(1));
    }
}

} // verus!
