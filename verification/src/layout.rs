//! Where the parts of a frame stand, stated of every request of a kind.

use crate::endian::be16_bytes;
use crate::endian::be32_bytes;
use crate::endian::be32_signed;
use crate::endian::lemma_be32_signed_of_bytes;
use crate::request::BoundColumn;
use crate::request::Consistency;
use crate::request::Request;
use crate::request::QUERY_FLAG_NONE;
use crate::request::QUERY_FLAG_VALUES;
use crate::writing::body_bytes;
use crate::writing::frame_bytes;
use crate::writing::value_bytes;
use crate::writing::values_bytes;
use vstd::prelude::*;
use vstd::utf8::encode_utf8;

verus! {

/// Every frame begins with the protocol version, zero flags, the stream
/// id 1 and the opcode of the request; the length of the body follows as
/// four bytes, and the body ends the frame.
pub proof fn lemma_frame_parts(message: Request)
    ensures
        frame_bytes(message).len() == 9 + body_bytes(message).len(),
        frame_bytes(message)[0] == 0x03,
        frame_bytes(message)[1] == 0x00,
        frame_bytes(message)[2] == 0x00,
        frame_bytes(message)[3] == 0x01,
        frame_bytes(message)[4] == message.spec_opcode(),
        frame_bytes(message).subrange(5, 9) == be32_bytes(body_bytes(message).len() as int),
        frame_bytes(message).subrange(9, frame_bytes(message).len() as int) == body_bytes(
            message,
        ),
{
    let frame = frame_bytes(message);
    let body = body_bytes(message);
    assert(be16_bytes(1) =~= seq![0u8, 1u8]);
    assert(frame.subrange(5, 9) =~= be32_bytes(body.len() as int));
    assert(frame.subrange(9, frame.len() as int) =~= body);
}

/// The frame of a query without values has the opcode of a query, and
/// its body is the text with its four-byte length, the consistency code
/// as two bytes, and a flags byte of zero: `4 + n + 2 + 1` bytes for a
/// text of `n` bytes.
pub proof fn lemma_query_frame(text: String, consistency: Consistency)
    ensures
        ({
            let message = Request::Query(text, consistency);
            let n = encode_utf8(text@).len() as int;
            let body = body_bytes(message);
            &&& frame_bytes(message)[4] == 0x07
            &&& frame_bytes(message).subrange(5, 9) == be32_bytes(4 + n + 2 + 1)
            &&& body.len() == 4 + n + 2 + 1
            &&& body.subrange(0, 4) == be32_bytes(n)
            &&& body.subrange(4, 4 + n) == encode_utf8(text@)
            &&& body.subrange(4 + n, 4 + n + 2) == be16_bytes(consistency.spec_code() as int)
            &&& body[4 + n + 2] == QUERY_FLAG_NONE
        }),
{
    let message = Request::Query(text, consistency);
    let n = encode_utf8(text@).len() as int;
    let body = body_bytes(message);
    lemma_frame_parts(message);
    assert(body.subrange(0, 4) =~= be32_bytes(n));
    assert(body.subrange(4, 4 + n) =~= encode_utf8(text@));
    assert(body.subrange(4 + n, 4 + n + 2) =~= be16_bytes(consistency.spec_code() as int));
}

/// The body of an execute request is the statement id with its two-byte
/// length, the consistency code, a flags byte with the "values present"
/// bit, the number of values as two bytes, and the values.
pub proof fn lemma_execute_body(id: Vec<u8>, values: Vec<BoundColumn>, consistency: Consistency)
    ensures
        ({
            let body = body_bytes(Request::Execute(id, values, consistency));
            let k = id@.len() as int;
            &&& body.len() == 2 + k + 2 + 1 + 2 + values_bytes(values@).len()
            &&& body.subrange(0, 2) == be16_bytes(k)
            &&& body.subrange(2, 2 + k) == id@
            &&& body.subrange(2 + k, 2 + k + 2) == be16_bytes(consistency.spec_code() as int)
            &&& body[2 + k + 2] == QUERY_FLAG_VALUES
            &&& body.subrange(2 + k + 3, 2 + k + 5) == be16_bytes(values@.len() as int)
            &&& body.subrange(2 + k + 5, body.len() as int) == values_bytes(values@)
        }),
{
    let body = body_bytes(Request::Execute(id, values, consistency));
    let k = id@.len() as int;
    assert(body.subrange(0, 2) =~= be16_bytes(k));
    assert(body.subrange(2, 2 + k) =~= id@);
    assert(body.subrange(2 + k, 2 + k + 2) =~= be16_bytes(consistency.spec_code() as int));
    assert(body.subrange(2 + k + 3, 2 + k + 5) =~= be16_bytes(values@.len() as int));
    assert(body.subrange(2 + k + 5, body.len() as int) =~= values_bytes(values@));
}

/// Whether `bytes` is `count` payloads, each behind its length as four
/// bytes, and nothing more.
pub open spec fn is_prefixed_run(bytes: Seq<u8>, count: nat) -> bool
    decreases count,
{
    if count == 0 {
        bytes.len() == 0
    } else {
        &&& bytes.len() >= 4
        &&& 0 <= be32_signed(bytes.subrange(0, 4))
        &&& 4 + be32_signed(bytes.subrange(0, 4)) <= bytes.len()
        &&& is_prefixed_run(
            bytes.subrange(4 + be32_signed(bytes.subrange(0, 4)), bytes.len() as int),
            (count - 1) as nat,
        )
    }
}

/// Whether `value` is present and its payload fits a 32-bit length.
pub open spec fn is_sized(value: BoundColumn) -> bool {
    !(value is Null) && value_bytes(value).len() - 4 <= i32::MAX
}

/// The wire form of a present value is its payload behind the length of
/// the payload.
pub proof fn lemma_value_is_prefixed(value: BoundColumn)
    requires
        is_sized(value),
    ensures
        value_bytes(value).len() >= 4,
        be32_signed(value_bytes(value).subrange(0, 4)) == value_bytes(value).len() - 4,
{
    let wire = value_bytes(value);
    let n = wire.len() - 4;
    assert(wire.subrange(0, 4) =~= be32_bytes(n));
    lemma_be32_signed_of_bytes(n);
}

/// A run of payloads followed by a run of payloads is a run of as many
/// payloads as both have.
pub proof fn lemma_runs_join(a: Seq<u8>, m: nat, b: Seq<u8>, n: nat)
    requires
        is_prefixed_run(a, m),
        is_prefixed_run(b, n),
    ensures
        is_prefixed_run(a + b, m + n),
    decreases m,
{
    if m == 0 {
        assert(a + b =~= b);
    } else {
        let len = be32_signed(a.subrange(0, 4));
        let whole = a + b;
        assert(whole.subrange(0, 4) =~= a.subrange(0, 4));
        assert(whole.subrange(4 + len, whole.len() as int) =~= a.subrange(4 + len, a.len() as int)
            + b);
        lemma_runs_join(a.subrange(4 + len, a.len() as int), (m - 1) as nat, b, n);
    }
}

/// Values that are all present are written as just as many payloads,
/// each behind its length.
pub proof fn lemma_values_are_prefixed(values: Seq<BoundColumn>)
    requires
        forall|i: int| 0 <= i < values.len() ==> is_sized(#[trigger] values[i]),
    ensures
        is_prefixed_run(values_bytes(values), values.len()),
    decreases values.len(),
{
    if values.len() > 0 {
        let last = value_bytes(values.last());
        lemma_values_are_prefixed(values.drop_last());
        lemma_value_is_prefixed(values.last());
        assert(is_prefixed_run(last, 1)) by {
            assert(last.subrange(last.len() as int, last.len() as int) =~= Seq::<u8>::empty());
            reveal_with_fuel(is_prefixed_run, 2);
        }
        lemma_runs_join(values_bytes(values.drop_last()), (values.len() - 1) as nat, last, 1);
    }
}

} // verus!
