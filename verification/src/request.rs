//! The request side of the type model: bound parameter values,
//! consistency levels, and the requests a client can send.

use crate::timestamp::Timestamp;
use vstd::prelude::*;

verus! {

/// The protocol version that every frame announces.
pub const PROTOCOL_VERSION: u8 = 0x03;

/// The flags byte of every frame header.
pub const FRAME_FLAGS: u8 = 0x00;

/// The stream id of every frame.
pub const STREAM_ID: i16 = 1;

/// The query flag that says bound values follow.
pub const QUERY_FLAG_VALUES: u8 = 0x01;

/// The query flags of a query without bound values.
pub const QUERY_FLAG_NONE: u8 = 0x00;

/// The batch type of a logged batch.
pub const BATCH_TYPE_LOGGED: u8 = 0x00;

/// The flags byte that ends a batch.
pub const BATCH_FLAG_NONE: u8 = 0x00;

/// The kind tag of a batch sub-query given as text.
pub const BATCH_KIND_SIMPLE: u8 = 0x00;

/// The kind tag of a batch sub-query given as a prepared statement id.
pub const BATCH_KIND_PREPARED: u8 = 0x01;

/// A value bound to a parameter of a request.
///
/// Floating-point values hold their IEEE 754 bit pattern.
#[derive(Clone, Debug, PartialEq, Eq)]
pub enum BoundColumn {
    /// No value. It is left out of what is written.
    Null,
    CqlString(String),
    CqlInt(i32),
    CqlBigint(i64),
    /// The bits of a 32-bit float.
    CqlFloat(u32),
    /// The bits of a 64-bit float.
    CqlDouble(u64),
    /// A point in time, written as RFC 3339 text.
    CqlTimestamp(Timestamp),
}

/// How many replicas must acknowledge an operation.
#[derive(Clone, Copy, Debug, PartialEq, Eq, Structural)]
pub enum Consistency {
    Any,
    One,
    Two,
    Three,
    Quorum,
    All,
    LocalQuorum,
    EachQuorum,
    Serial,
    LocalSerial,
    LocalOne,
}

impl Consistency {
    /// The code of this level on the wire.
    pub open spec fn spec_code(self) -> u16 {
        match self {
            Consistency::Any => 0x0000,
            Consistency::One => 0x0001,
            Consistency::Two => 0x0002,
            Consistency::Three => 0x0003,
            Consistency::Quorum => 0x0004,
            Consistency::All => 0x0005,
            Consistency::LocalQuorum => 0x0006,
            Consistency::EachQuorum => 0x0007,
            Consistency::Serial => 0x0008,
            Consistency::LocalSerial => 0x0009,
            Consistency::LocalOne => 0x000A,
        }
    }

    /// The code of this level on the wire.
    #[verifier::when_used_as_spec(spec_code)]
    pub fn code(self) -> (c: u16)
        ensures
            c == self.spec_code(),
    {
        match self {
            Consistency::Any => 0x0000,
            Consistency::One => 0x0001,
            Consistency::Two => 0x0002,
            Consistency::Three => 0x0003,
            Consistency::Quorum => 0x0004,
            Consistency::All => 0x0005,
            Consistency::LocalQuorum => 0x0006,
            Consistency::EachQuorum => 0x0007,
            Consistency::Serial => 0x0008,
            Consistency::LocalSerial => 0x0009,
            Consistency::LocalOne => 0x000A,
        }
    }
}

/// One statement of a batch.
#[derive(Clone, Debug, PartialEq, Eq)]
pub enum BatchQuery {
    /// Query text without parameters.
    Simple(String),
    /// Query text and the values bound to it.
    SimpleWithParams(String, Vec<BoundColumn>),
    /// The id of a prepared statement and the values bound to it.
    Prepared(Vec<u8>, Vec<BoundColumn>),
}

/// The options of a startup request: string keys with string values, in
/// the order in which the keys were first set. No key occurs twice.
#[derive(Clone, Debug, PartialEq, Eq)]
pub struct StartupOptions {
    entries: Vec<(String, String)>,
}

/// The keys and values of a sequence of string pairs, as characters.
pub open spec fn pairs_of(entries: Seq<(String, String)>) -> Seq<(Seq<char>, Seq<char>)> {
    Seq::new(entries.len(), |i: int| (entries[i].0@, entries[i].1@))
}

/// Whether no key occurs at two places of `pairs`.
pub open spec fn distinct_keys(pairs: Seq<(Seq<char>, Seq<char>)>) -> bool {
    forall|i: int, j: int| 0 <= i < j < pairs.len() ==> pairs[i].0 != pairs[j].0
}

impl View for StartupOptions {
    type V = Seq<(Seq<char>, Seq<char>)>;

    closed spec fn view(&self) -> Seq<(Seq<char>, Seq<char>)> {
        pairs_of(self.entries@)
    }
}

/// Whether `key` stands at place `i` of `pairs` and at no earlier place.
pub open spec fn first_at(pairs: Seq<(Seq<char>, Seq<char>)>, key: Seq<char>, i: int) -> bool {
    &&& 0 <= i < pairs.len()
    &&& pairs[i].0 == key
    &&& forall|j: int| 0 <= j < i ==> pairs[j].0 != key
}

/// Whether `key` stands nowhere in `pairs`.
pub open spec fn absent(pairs: Seq<(Seq<char>, Seq<char>)>, key: Seq<char>) -> bool {
    forall|i: int| 0 <= i < pairs.len() ==> pairs[i].0 != key
}

impl StartupOptions {
    /// No options.
    pub fn new() -> (r: Self)
        ensures
            r@ == Seq::<(Seq<char>, Seq<char>)>::empty(),
            distinct_keys(r@),
    {
        let r = StartupOptions { entries: Vec::new() };
        assert(pairs_of(r.entries@) =~= Seq::<(Seq<char>, Seq<char>)>::empty());
        r
    }

    /// The number of options.
    pub fn len(&self) -> (n: usize)
        ensures
            n == self@.len(),
    {
        self.entries.len()
    }

    /// The options as pairs of strings, in order.
    pub fn entries(&self) -> (r: &Vec<(String, String)>)
        ensures
            pairs_of(r@) == self@,
    {
        &self.entries
    }

    /// The first place of `key` among the options, if it is set.
    fn find(&self, key: &String) -> (r: Option<usize>)
        ensures
            match r {
                Some(i) => first_at(self@, key@, i as int),
                None => absent(self@, key@),
            },
    {
        let mut i: usize = 0;
        while i < self.entries.len()
            invariant
                i <= self.entries@.len(),
                forall|j: int| 0 <= j < i ==> pairs_of(self.entries@)[j].0 != key@,
            decreases self.entries@.len() - i,
        {
            if self.entries[i].0 == *key {
                return Some(i);
            }
            i = i + 1;
        }
        None
    }

    /// Sets the option `key` to `value`. A key that is already set keeps
    /// its place and takes the new value; a new key goes to the end.
    /// Options whose keys differ from one another stay so.
    pub fn insert(&mut self, key: String, value: String)
        ensures
            absent(old(self)@, key@) ==> final(self)@ == old(self)@.push((key@, value@)),
            forall|i: int|
                first_at(old(self)@, key@, i) ==> final(self)@ == old(self)@.update(
                    i,
                    (key@, value@),
                ),
            distinct_keys(old(self)@) ==> distinct_keys(final(self)@),
    {
        let ghost before = self@;
        match self.find(&key) {
            Some(i) => {
                self.entries.set(i, (key, value));
                assert(pairs_of(self.entries@) =~= before.update(i as int, (key@, value@)));
            },
            None => {
                self.entries.push((key, value));
                assert(pairs_of(self.entries@) =~= before.push((key@, value@)));
            },
        }
    }
}

/// A request that a client sends.
#[derive(Clone, Debug, PartialEq, Eq)]
pub enum Request {
    /// Opens a session with the given options.
    Startup(StartupOptions),
    /// Asks which options the server supports. It has no body.
    Options,
    /// A query given as text.
    Query(String, Consistency),
    /// A query given as text, with bound values.
    PrmQuery(String, Vec<BoundColumn>, Consistency),
    /// Prepares the query given as text.
    Prepare(String),
    /// Executes the prepared statement with the given id and bound
    /// values.
    Execute(Vec<u8>, Vec<BoundColumn>, Consistency),
    /// Several statements sent as one logged batch.
    Batch(Vec<BatchQuery>, Consistency),
}

impl Request {
    /// The opcode of this request on the wire.
    pub open spec fn spec_opcode(&self) -> u8 {
        match self {
            Request::Startup(_) => 0x01,
            Request::Options => 0x05,
            Request::Query(_, _) => 0x07,
            Request::PrmQuery(_, _, _) => 0x07,
            Request::Prepare(_) => 0x09,
            Request::Execute(_, _, _) => 0x0A,
            Request::Batch(_, _) => 0x0D,
        }
    }

    /// The opcode of this request on the wire.
    #[verifier::when_used_as_spec(spec_opcode)]
    pub fn opcode(&self) -> (op: u8)
        ensures
            op == self.spec_opcode(),
    {
        match self {
            Request::Startup(_) => 0x01,
            Request::Options => 0x05,
            Request::Query(_, _) => 0x07,
            Request::PrmQuery(_, _, _) => 0x07,
            Request::Prepare(_) => 0x09,
            Request::Execute(_, _, _) => 0x0A,
            Request::Batch(_, _) => 0x0D,
        }
    }
}

} // verus!
