//! Encoding of request frames and of the values bound to them.

use crate::endian::be16_bytes;
use crate::endian::be32_bytes;
use crate::endian::be64_bytes;
use crate::endian::lemma_be16_congruent;
use crate::endian::lemma_be32_congruent;
use crate::endian::put_i16;
use crate::endian::put_i32;
use crate::endian::put_i64;
use crate::endian::put_u16;
use crate::endian::put_u32;
use crate::endian::put_u64;
use crate::endian::put_u8;
use crate::request::BatchQuery;
use crate::request::BoundColumn;
use crate::request::Request;
use crate::request::pairs_of;
use crate::request::BATCH_FLAG_NONE;
use crate::request::BATCH_KIND_PREPARED;
use crate::request::BATCH_KIND_SIMPLE;
use crate::request::BATCH_TYPE_LOGGED;
use crate::request::FRAME_FLAGS;
use crate::request::PROTOCOL_VERSION;
use crate::request::QUERY_FLAG_NONE;
use crate::request::QUERY_FLAG_VALUES;
use crate::request::STREAM_ID;
use vstd::prelude::*;
use vstd::utf8::encode_utf8;

verus! {

/// The low 16 bits of a length decide its two-byte form.
proof fn lemma_be16_of_low_bits(len: usize, low: u16)
    requires
        low == len as u16,
    ensures
        be16_bytes(low as int) == be16_bytes(len as int),
{
    assert(low == len % 0x1_0000) by (bit_vector)
        requires
            low == len as u16,
    ;
    lemma_be16_congruent(len as int, low as int, len as int / 0x1_0000);
}

/// The low 32 bits of a length, read as a signed number, decide its
/// four-byte form.
proof fn lemma_be32_of_low_bits(len: usize, low: i32)
    requires
        low == len as i32,
    ensures
        be32_bytes(low as int) == be32_bytes(len as int),
{
    let unsigned = low as u32;
    let wide = len as u64;
    assert(unsigned == wide % 0x1_0000_0000) by (bit_vector)
        requires
            unsigned == (len as i32) as u32,
            wide == len as u64,
    ;
    assert(low >= 0 ==> unsigned == low) by (bit_vector)
        requires
            unsigned == low as u32,
    ;
    assert(low < 0 ==> unsigned == low + 0x1_0000_0000) by (bit_vector)
        requires
            unsigned == low as u32,
    ;
    if low >= 0 {
        lemma_be32_congruent(len as int, low as int, len as int / 0x1_0000_0000);
    } else {
        lemma_be32_congruent(len as int, low as int, len as int / 0x1_0000_0000 + 1);
    }
}

/// Appends `bytes` to `buf`.
fn put_bytes(buf: &mut Vec<u8>, bytes: &[u8])
    ensures
        final(buf)@ == old(buf)@ + bytes@,
{
    buf.extend_from_slice(bytes);
    assert(buf@ =~= old(buf)@ + bytes@);
}

/// Appends a length as two bytes. A length of 65536 or more is cut to
/// its low 16 bits.
fn put_short_len(buf: &mut Vec<u8>, len: usize)
    ensures
        final(buf)@ == old(buf)@ + be16_bytes(len as int),
{
    let low: u16 = #[verifier::truncate] (len as u16);
    proof {
        lemma_be16_of_low_bits(len, low);
    }
    put_u16(buf, low);
}

/// Appends a length as four bytes. A length of 2^32 or more is cut to
/// its low 32 bits.
fn put_long_len(buf: &mut Vec<u8>, len: usize)
    ensures
        final(buf)@ == old(buf)@ + be32_bytes(len as int),
{
    let low: i32 = #[verifier::truncate] (len as i32);
    proof {
        lemma_be32_of_low_bits(len, low);
    }
    put_i32(buf, low);
}

/// Text with its length in bytes before it, as four bytes.
pub open spec fn long_string(text: Seq<char>) -> Seq<u8> {
    be32_bytes(encode_utf8(text).len() as int) + encode_utf8(text)
}

/// Text with its length in bytes before it, as two bytes.
pub open spec fn short_string(text: Seq<char>) -> Seq<u8> {
    be16_bytes(encode_utf8(text).len() as int) + encode_utf8(text)
}

/// Raw bytes with their number before them, as two bytes.
pub open spec fn short_bytes(raw: Seq<u8>) -> Seq<u8> {
    be16_bytes(raw.len() as int) + raw
}

/// The wire form of one bound value: a four-byte length and the payload.
/// An absent value has no wire form at all.
pub open spec fn value_bytes(value: BoundColumn) -> Seq<u8> {
    match value {
        BoundColumn::Null => Seq::empty(),
        BoundColumn::CqlString(text) => long_string(text@),
        BoundColumn::CqlInt(n) => be32_bytes(4) + be32_bytes(n as int),
        BoundColumn::CqlBigint(n) => be32_bytes(8) + be64_bytes(n as int),
        BoundColumn::CqlFloat(bits) => be32_bytes(4) + be32_bytes(bits as int),
        BoundColumn::CqlDouble(bits) => be32_bytes(8) + be64_bytes(bits as int),
        BoundColumn::CqlTimestamp(at) => long_string(at.text()),
    }
}

/// The wire forms of the values, one after the other.
pub open spec fn values_bytes(values: Seq<BoundColumn>) -> Seq<u8>
    decreases values.len(),
{
    if values.len() == 0 {
        Seq::empty()
    } else {
        values_bytes(values.drop_last()) + value_bytes(values.last())
    }
}

/// The number of values as two bytes, then their wire forms. The number
/// counts absent values too.
pub open spec fn counted_values(values: Seq<BoundColumn>) -> Seq<u8> {
    be16_bytes(values.len() as int) + values_bytes(values)
}

/// Appends text with its four-byte length.
pub fn write_long_string(buf: &mut Vec<u8>, text: &str)
    ensures
        final(buf)@ == old(buf)@ + long_string(text@),
{
    let bytes = text.as_bytes();
    put_long_len(buf, bytes.len());
    put_bytes(buf, bytes);
    assert(buf@ =~= old(buf)@ + long_string(text@));
}

/// Appends text with its two-byte length.
pub fn write_short_string(buf: &mut Vec<u8>, text: &str)
    ensures
        final(buf)@ == old(buf)@ + short_string(text@),
{
    let bytes = text.as_bytes();
    put_short_len(buf, bytes.len());
    put_bytes(buf, bytes);
    assert(buf@ =~= old(buf)@ + short_string(text@));
}

/// Appends raw bytes with their two-byte number.
pub fn write_short_bytes(buf: &mut Vec<u8>, raw: &[u8])
    ensures
        final(buf)@ == old(buf)@ + short_bytes(raw@),
{
    put_short_len(buf, raw.len());
    put_bytes(buf, raw);
    assert(buf@ =~= old(buf)@ + short_bytes(raw@));
}

/// Appends the wire form of one bound value.
pub fn write_value(buf: &mut Vec<u8>, value: &BoundColumn)
    ensures
        final(buf)@ == old(buf)@ + value_bytes(*value),
{
    match value {
        BoundColumn::Null => {
            assert(buf@ =~= old(buf)@ + value_bytes(*value));
        },
        BoundColumn::CqlString(text) => {
            write_long_string(buf, text.as_str());
        },
        BoundColumn::CqlInt(n) => {
            put_i32(buf, 4);
            put_i32(buf, *n);
            assert(buf@ =~= old(buf)@ + value_bytes(*value));
        },
        BoundColumn::CqlBigint(n) => {
            put_i32(buf, 8);
            put_i64(buf, *n);
            assert(buf@ =~= old(buf)@ + value_bytes(*value));
        },
        BoundColumn::CqlFloat(bits) => {
            put_i32(buf, 4);
            put_u32(buf, *bits);
            assert(buf@ =~= old(buf)@ + value_bytes(*value));
        },
        BoundColumn::CqlDouble(bits) => {
            put_i32(buf, 8);
            put_u64(buf, *bits);
            assert(buf@ =~= old(buf)@ + value_bytes(*value));
        },
        BoundColumn::CqlTimestamp(at) => {
            let text = at.to_rfc3339();
            write_long_string(buf, text.as_str());
        },
    }
}

/// Appends the wire forms of the values, in order. An absent value adds
/// nothing, so fewer values may be written than the list holds.
pub fn write_values(buf: &mut Vec<u8>, values: &Vec<BoundColumn>)
    ensures
        final(buf)@ == old(buf)@ + values_bytes(values@),
{
    let mut i: usize = 0;
    assert(values@.take(0) =~= Seq::<BoundColumn>::empty());
    assert(buf@ =~= old(buf)@ + values_bytes(values@.take(0)));
    while i < values.len()
        invariant
            i <= values@.len(),
            buf@ == old(buf)@ + values_bytes(values@.take(i as int)),
        decreases values@.len() - i,
    {
        let ghost before = buf@;
        write_value(buf, &values[i]);
        proof {
            let next = values@.take(i + 1);
            assert(next.drop_last() =~= values@.take(i as int));
            assert(next.last() == values@[i as int]);
            assert(buf@ =~= old(buf)@ + values_bytes(next));
        }
        i = i + 1;
    }
    assert(values@.take(i as int) =~= values@);
}

/// Appends the number of values as two bytes, then their wire forms.
pub fn write_counted_values(buf: &mut Vec<u8>, values: &Vec<BoundColumn>)
    ensures
        final(buf)@ == old(buf)@ + counted_values(values@),
{
    put_short_len(buf, values.len());
    write_values(buf, values);
    assert(buf@ =~= old(buf)@ + counted_values(values@));
}

/// The wire form of startup options: each key and each value as text
/// with a two-byte length, in order.
pub open spec fn options_bytes(pairs: Seq<(Seq<char>, Seq<char>)>) -> Seq<u8>
    decreases pairs.len(),
{
    if pairs.len() == 0 {
        Seq::empty()
    } else {
        options_bytes(pairs.drop_last()) + short_string(pairs.last().0) + short_string(
            pairs.last().1,
        )
    }
}

/// The wire form of one statement of a batch: its kind tag, its text or
/// prepared id, and its counted values. A statement without parameters
/// has a count of zero.
pub open spec fn batch_query_bytes(query: BatchQuery) -> Seq<u8> {
    match query {
        BatchQuery::Simple(text) => seq![BATCH_KIND_SIMPLE] + long_string(text@) + be16_bytes(0),
        BatchQuery::SimpleWithParams(text, values) => seq![BATCH_KIND_SIMPLE] + long_string(text@)
            + counted_values(values@),
        BatchQuery::Prepared(id, values) => seq![BATCH_KIND_PREPARED] + short_bytes(id@)
            + counted_values(values@),
    }
}

/// The wire forms of the statements of a batch, one after the other.
pub open spec fn batch_queries_bytes(queries: Seq<BatchQuery>) -> Seq<u8>
    decreases queries.len(),
{
    if queries.len() == 0 {
        Seq::empty()
    } else {
        batch_queries_bytes(queries.drop_last()) + batch_query_bytes(queries.last())
    }
}

/// The body of the frame of a request.
pub open spec fn body_bytes(message: Request) -> Seq<u8> {
    match message {
        Request::Startup(options) => be16_bytes(options@.len() as int) + options_bytes(options@),
        Request::Options => Seq::empty(),
        Request::Query(text, consistency) => long_string(text@) + be16_bytes(
            consistency.spec_code() as int,
        ) + seq![QUERY_FLAG_NONE],
        Request::PrmQuery(text, values, consistency) => long_string(text@) + be16_bytes(
            consistency.spec_code() as int,
        ) + seq![QUERY_FLAG_VALUES] + counted_values(values@),
        Request::Prepare(text) => long_string(text@),
        Request::Execute(id, values, consistency) => short_bytes(id@) + be16_bytes(
            consistency.spec_code() as int,
        ) + seq![QUERY_FLAG_VALUES] + counted_values(values@),
        Request::Batch(queries, consistency) => seq![BATCH_TYPE_LOGGED] + be16_bytes(
            queries@.len() as int,
        ) + batch_queries_bytes(queries@) + be16_bytes(consistency.spec_code() as int)
            + seq![BATCH_FLAG_NONE],
    }
}

/// The header of a frame: version, flags, stream id as two bytes, opcode.
pub open spec fn header_bytes(version: u8, flags: u8, stream: i16, opcode: u8) -> Seq<u8> {
    seq![version, flags] + be16_bytes(stream as int) + seq![opcode]
}

/// The frame of a request: the header, the length of the body as four
/// bytes, and the body.
pub open spec fn frame_bytes(message: Request) -> Seq<u8> {
    header_bytes(PROTOCOL_VERSION, FRAME_FLAGS, STREAM_ID, message.spec_opcode()) + be32_bytes(
        body_bytes(message).len() as int,
    ) + body_bytes(message)
}

/// Appends the wire form of startup options.
fn write_options(buf: &mut Vec<u8>, entries: &Vec<(String, String)>)
    ensures
        final(buf)@ == old(buf)@ + options_bytes(pairs_of(entries@)),
{
    let ghost pairs = pairs_of(entries@);
    let mut i: usize = 0;
    assert(pairs.take(0) =~= Seq::<(Seq<char>, Seq<char>)>::empty());
    assert(buf@ =~= old(buf)@ + options_bytes(pairs.take(0)));
    while i < entries.len()
        invariant
            i <= entries@.len(),
            pairs == pairs_of(entries@),
            buf@ == old(buf)@ + options_bytes(pairs.take(i as int)),
        decreases entries@.len() - i,
    {
        write_short_string(buf, entries[i].0.as_str());
        write_short_string(buf, entries[i].1.as_str());
        proof {
            let next = pairs.take(i + 1);
            assert(next.drop_last() =~= pairs.take(i as int));
            assert(next.last() == pairs[i as int]);
            assert(buf@ =~= old(buf)@ + options_bytes(next));
        }
        i = i + 1;
    }
    assert(pairs.take(i as int) =~= pairs);
}

/// Appends the wire form of one statement of a batch.
pub fn write_batch_query(buf: &mut Vec<u8>, query: &BatchQuery)
    ensures
        final(buf)@ == old(buf)@ + batch_query_bytes(*query),
{
    match query {
        BatchQuery::Simple(text) => {
            put_u8(buf, BATCH_KIND_SIMPLE);
            write_long_string(buf, text.as_str());
            put_u16(buf, 0);
        },
        BatchQuery::SimpleWithParams(text, values) => {
            put_u8(buf, BATCH_KIND_SIMPLE);
            write_long_string(buf, text.as_str());
            write_counted_values(buf, values);
        },
        BatchQuery::Prepared(id, values) => {
            put_u8(buf, BATCH_KIND_PREPARED);
            write_short_bytes(buf, id.as_slice());
            write_counted_values(buf, values);
        },
    }
    assert(buf@ =~= old(buf)@ + batch_query_bytes(*query));
}

/// Appends the wire forms of the statements of a batch, in order.
fn write_batch_queries(buf: &mut Vec<u8>, queries: &Vec<BatchQuery>)
    ensures
        final(buf)@ == old(buf)@ + batch_queries_bytes(queries@),
{
    let mut i: usize = 0;
    assert(queries@.take(0) =~= Seq::<BatchQuery>::empty());
    assert(buf@ =~= old(buf)@ + batch_queries_bytes(queries@.take(0)));
    while i < queries.len()
        invariant
            i <= queries@.len(),
            buf@ == old(buf)@ + batch_queries_bytes(queries@.take(i as int)),
        decreases queries@.len() - i,
    {
        write_batch_query(buf, &queries[i]);
        proof {
            let next = queries@.take(i + 1);
            assert(next.drop_last() =~= queries@.take(i as int));
            assert(next.last() == queries@[i as int]);
            assert(buf@ =~= old(buf)@ + batch_queries_bytes(next));
        }
        i = i + 1;
    }
    assert(queries@.take(i as int) =~= queries@);
}

/// The body of the frame of `message`.
pub fn encode_body(message: &Request) -> (body: Vec<u8>)
    ensures
        body@ == body_bytes(*message),
{
    let mut buf: Vec<u8> = Vec::new();
    match message {
        Request::Startup(options) => {
            let entries = options.entries();
            put_short_len(&mut buf, entries.len());
            write_options(&mut buf, entries);
        },
        Request::Options => {},
        Request::Query(text, consistency) => {
            write_long_string(&mut buf, text.as_str());
            put_u16(&mut buf, consistency.code());
            put_u8(&mut buf, QUERY_FLAG_NONE);
        },
        Request::PrmQuery(text, values, consistency) => {
            write_long_string(&mut buf, text.as_str());
            put_u16(&mut buf, consistency.code());
            put_u8(&mut buf, QUERY_FLAG_VALUES);
            write_counted_values(&mut buf, values);
        },
        Request::Prepare(text) => {
            write_long_string(&mut buf, text.as_str());
        },
        Request::Execute(id, values, consistency) => {
            write_short_bytes(&mut buf, id.as_slice());
            put_u16(&mut buf, consistency.code());
            put_u8(&mut buf, QUERY_FLAG_VALUES);
            write_counted_values(&mut buf, values);
        },
        Request::Batch(queries, consistency) => {
            put_u8(&mut buf, BATCH_TYPE_LOGGED);
            put_short_len(&mut buf, queries.len());
            write_batch_queries(&mut buf, queries);
            put_u16(&mut buf, consistency.code());
            put_u8(&mut buf, BATCH_FLAG_NONE);
        },
    }
    assert(buf@ =~= body_bytes(*message));
    buf
}

/// The header of a frame with the given fields.
pub fn frame_header(version: u8, flags: u8, stream: i16, opcode: u8) -> (header: Vec<u8>)
    ensures
        header@ == header_bytes(version, flags, stream, opcode),
{
    let mut header: Vec<u8> = Vec::new();
    put_u8(&mut header, version);
    put_u8(&mut header, flags);
    put_i16(&mut header, stream);
    put_u8(&mut header, opcode);
    assert(header@ =~= header_bytes(version, flags, stream, opcode));
    header
}

/// The length of a frame body as four bytes. A length of 2^32 or more
/// is cut to its low 32 bits.
pub fn body_length(body: &Vec<u8>) -> (field: Vec<u8>)
    ensures
        field@ == be32_bytes(body@.len() as int),
{
    let mut field: Vec<u8> = Vec::new();
    let len = body.len();
    let low: u32 = #[verifier::truncate] (len as u32);
    proof {
        let wide = len as u64;
        assert(low == wide % 0x1_0000_0000) by (bit_vector)
            requires
                low == len as u32,
                wide == len as u64,
        ;
        lemma_be32_congruent(len as int, low as int, len as int / 0x1_0000_0000);
    }
    put_u32(&mut field, low);
    assert(field@ =~= be32_bytes(body@.len() as int));
    field
}

/// A sink that request frames can be written to.
pub trait WriteMessage {
    /// The bytes that the sink has taken so far.
    spec fn sent(&self) -> Seq<u8>;

    /// Writes one frame for `message`: the header, the length of the
    /// body, and the body, in this order and with nothing between them.
    fn write_message(&mut self, message: Request)
        ensures
            final(self).sent() == old(self).sent() + frame_bytes(message),
    ;
}

impl WriteMessage for Vec<u8> {
    open spec fn sent(&self) -> Seq<u8> {
        self@
    }

    fn write_message(&mut self, message: Request) {
        let header = frame_header(PROTOCOL_VERSION, FRAME_FLAGS, STREAM_ID, message.opcode());
        let body = encode_body(&message);
        let length = body_length(&body);
        put_bytes(self, header.as_slice());
        put_bytes(self, length.as_slice());
        put_bytes(self, body.as_slice());
        assert(self@ =~= old(self)@ + frame_bytes(message));
    }
}

} // verus!
