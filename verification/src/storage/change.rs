//! Changes as they are stored.
use super::chunk::{self, CheckSum, Header, HeaderError, HeaderModel};
use super::columns::{self, RawColumn, RawColumns, RawColumnsError};
use super::parse::{self, Input, Parsed};
use crate::columnar::encoding::cells;
use crate::columnar::encoding::col_error::{DecodeColumnError, DecodeColumnFault};
use crate::error::InvalidOpType;
use crate::leb;
use crate::op_set2::op::{self, OpBuilder, OpModel};
use crate::text;
use crate::types::{self, copy_actors, copy_bytes, copy_hashes, same_bytes, ActorId, ChangeHash};
use std::borrow::Cow;
use std::marker::PhantomData;
use std::ops::Range;
use vstd::prelude::*;

pub mod compressed;
pub mod iter;
pub use compressed::Compressed;
use iter::{ChangeOpIter, ChangeOpIterUnverified, Rows};

verus! {

/// Why bytes are no change.
#[derive(Clone, Copy, Debug, PartialEq, Eq, Structural)]
pub enum ParseError {
    Leb128(parse::Leb128Error),
    InvalidUtf8,
    RawColumns(RawColumnsError),
    Header(HeaderError),
    CompressedChangeCols,
    InvalidOpColumn(u32),
}

/// Why an operation could not be read.
#[derive(Debug)]
pub enum ReadChangeOpError {
    DecodeError(DecodeColumnError),
    InvalidOpType(InvalidOpType),
    CounterTooLarge,
}

/// The model of a `ReadChangeOpError`.
pub enum ReadFault {
    Decode(DecodeColumnFault),
    InvalidOpType(InvalidOpType),
    CounterTooLarge,
}

impl View for ReadChangeOpError {
    type V = ReadFault;

    open spec fn view(&self) -> ReadFault {
        match self {
            ReadChangeOpError::DecodeError(e) => ReadFault::Decode(e@),
            ReadChangeOpError::InvalidOpType(e) => ReadFault::InvalidOpType(*e),
            ReadChangeOpError::CounterTooLarge => ReadFault::CounterTooLarge,
        }
    }
}

impl From<DecodeColumnError> for ReadChangeOpError {
    fn from(e: DecodeColumnError) -> (r: Self)
        ensures
            r == ReadChangeOpError::DecodeError(e),
    {
        ReadChangeOpError::DecodeError(e)
    }
}

impl vstd::std_specs::convert::FromSpecImpl<DecodeColumnError> for ReadChangeOpError {
    open spec fn obeys_from_spec() -> bool {
        true
    }

    open spec fn from_spec(e: DecodeColumnError) -> Self {
        ReadChangeOpError::DecodeError(e)
    }
}

impl From<InvalidOpType> for ReadChangeOpError {
    fn from(e: InvalidOpType) -> (r: Self)
        ensures
            r == ReadChangeOpError::InvalidOpType(e),
    {
        ReadChangeOpError::InvalidOpType(e)
    }
}

impl vstd::std_specs::convert::FromSpecImpl<InvalidOpType> for ReadChangeOpError {
    open spec fn obeys_from_spec() -> bool {
        true
    }

    open spec fn from_spec(e: InvalidOpType) -> Self {
        ReadChangeOpError::InvalidOpType(e)
    }
}

/// A change is worth compressing if it is longer than this.
pub const DEFLATE_MIN_SIZE: usize = 256;

/// Whether the operations of a change have been read without an error. What
/// has been read once can be read again without a `Result`.
pub trait OpReadState {

}

#[derive(Clone, Copy, Debug, PartialEq, Eq)]
pub struct Verified;

#[derive(Clone, Copy, Debug, PartialEq, Eq)]
pub struct Unverified;

impl OpReadState for Verified {

}

impl OpReadState for Unverified {

}

/// A change, as a chunk of bytes and what is in it.
#[derive(Debug)]
pub struct Change<'a, O: OpReadState> {
    pub(crate) bytes: Cow<'a, [u8]>,
    pub(crate) header: Header,
    pub(crate) dependencies: Vec<ChangeHash>,
    pub(crate) actor: ActorId,
    pub(crate) other_actors: Vec<ActorId>,
    pub(crate) seq: u64,
    pub(crate) start_op: u64,
    pub(crate) timestamp: i64,
    pub(crate) message: Option<String>,
    pub(crate) ops_meta: RawColumns,
    pub(crate) ops_data: Range<usize>,
    pub(crate) extra_bytes: Range<usize>,
    pub(crate) num_ops: usize,
    pub(crate) _phantom: PhantomData<O>,
}

/// The model of a `Change`.
#[verifier::ext_equal]
pub struct ChangeModel {
    /// The bytes of the chunk, its header among them.
    pub bytes: Seq<u8>,
    pub header: HeaderModel,
    pub dependencies: Seq<Seq<u8>>,
    pub actor: Seq<u8>,
    pub other_actors: Seq<Seq<u8>>,
    pub seq: u64,
    pub start_op: u64,
    pub timestamp: i64,
    pub message: Option<Seq<char>>,
    pub columns: Seq<RawColumn>,
    /// Where in the bytes the columns stand.
    pub ops_data: Range<usize>,
    /// Where in the bytes stand those that are not known.
    pub extra_bytes: Range<usize>,
    /// How many operations have been read of the columns.
    pub num_ops: nat,
}

impl ChangeModel {
    /// The ranges stand within the bytes, which end with those that are not
    /// known, and there is no counter zero.
    pub open spec fn wf(self) -> bool {
        &&& self.header.size <= self.bytes.len()
        &&& self.ops_data.start <= self.ops_data.end <= self.bytes.len()
        &&& self.extra_bytes.start <= self.extra_bytes.end == self.bytes.len()
        &&& columns::within(self.columns, (self.ops_data.end - self.ops_data.start) as nat)
        &&& 1 <= self.start_op
        &&& self.start_op + self.num_ops <= u64::MAX
    }

    /// The bytes behind the header.
    pub open spec fn body(self) -> Seq<u8> {
        self.bytes.skip(self.header.size as int)
    }

    /// The bytes of the columns.
    pub open spec fn column_bytes(self) -> Seq<u8> {
        self.bytes.subrange(self.ops_data.start as int, self.ops_data.end as int)
    }

    /// The bytes that are not known.
    pub open spec fn extra(self) -> Seq<u8> {
        self.bytes.subrange(self.extra_bytes.start as int, self.extra_bytes.end as int)
    }

    /// The columns, before anything has been read of them; `None` where one of
    /// them is none that operations have.
    pub open spec fn rows(self) -> Option<Rows> {
        match iter::rows_of(self.columns, self.column_bytes(), self.start_op as nat) {
            Ok(rows) => Some(rows),
            Err(_) => None,
        }
    }

    /// The operations up to the end or the first error, and that error.
    pub open spec fn ops(self) -> (Seq<OpModel>, Option<ReadFault>) {
        iter::ops_of(self.columns, self.column_bytes(), self.start_op as nat)
    }
}

impl<'a, O: OpReadState> View for Change<'a, O> {
    type V = ChangeModel;

    closed spec fn view(&self) -> ChangeModel {
        ChangeModel {
            bytes: self.bytes@,
            header: self.header@,
            dependencies: types::hash_names(self.dependencies@),
            actor: self.actor@,
            other_actors: types::actor_names(self.other_actors@),
            seq: self.seq,
            start_op: self.start_op,
            timestamp: self.timestamp,
            message: cells::opt_text(self.message),
            columns: self.ops_meta@,
            ops_data: self.ops_data,
            extra_bytes: self.extra_bytes,
            num_ops: self.num_ops as nat,
        }
    }
}

/// What a change holds in front of its columns.
pub struct Body {
    pub dependencies: Seq<Seq<u8>>,
    pub actor: Seq<u8>,
    pub seq: u64,
    pub start_op: u64,
    pub timestamp: i64,
    pub message: Seq<char>,
    pub other_actors: Seq<Seq<u8>>,
    pub columns: Seq<RawColumn>,
}

/// The body of a change, up to the bytes of its columns.
#[verifier::opaque]
pub open spec fn body_parse(s: Seq<u8>) -> Parsed<Body> {
    match parse::hash_list_parse(s) {
        Err(e) => Err(e),
        Ok((dependencies, s)) => match parse::bytes_parse(s) {
            Err(e) => Err(e),
            Ok((actor, s)) => match parse::u64_parse(s) {
                Err(e) => Err(e),
                Ok((seq, s)) => match parse::nonzero_u64_parse(s) {
                    Err(e) => Err(e),
                    Ok((start_op, s)) => match parse::i64_parse(s) {
                        Err(e) => Err(e),
                        Ok((timestamp, s)) => match parse::text_parse(s) {
                            Err(e) => Err(e),
                            Ok((message, s)) => match parse::actor_list_parse(s) {
                                Err(e) => Err(e),
                                Ok((other_actors, s)) => match columns::columns_parse(s) {
                                    Err(e) => Err(e),
                                    Ok((columns, s)) => Ok(
                                        (
                                            Body {
                                                dependencies,
                                                actor,
                                                seq,
                                                start_op,
                                                timestamp,
                                                message,
                                                other_actors,
                                                columns,
                                            },
                                            s,
                                        ),
                                    ),
                                },
                            },
                        },
                    },
                },
            },
        },
    }
}

/// The bytes of the body of a change, with `rest` behind them.
pub open spec fn body_bytes(b: Body, rest: Seq<u8>) -> Seq<u8> {
    leb::uleb_bytes(b.dependencies.len()) + (parse::concat(b.dependencies) + (parse::prefixed(
        b.actor,
    ) + (leb::uleb_bytes(b.seq as nat) + (leb::uleb_bytes(b.start_op as nat) + (leb::sleb_bytes(
        b.timestamp as int,
    ) + (parse::prefixed(text::text_bytes(b.message)) + (leb::uleb_bytes(b.other_actors.len()) + (
    parse::concat_prefixed(b.other_actors) + (columns::manifest(b.columns) + rest)))))))))
}

/// The body can be written: its parts can be counted in 64 bits, its columns
/// are in order and their bytes follow.
pub open spec fn body_writable(b: Body, rest: Seq<u8>) -> bool {
    &&& b.dependencies.len() <= u64::MAX
    &&& forall|i: int| 0 <= i < b.dependencies.len() ==> (#[trigger] b.dependencies[i]).len() == 32
    &&& b.actor.len() <= u64::MAX
    &&& b.start_op >= 1
    &&& text::text_bytes(b.message).len() <= u64::MAX
    &&& b.other_actors.len() <= u64::MAX
    &&& forall|i: int|
        0 <= i < b.other_actors.len() ==> (#[trigger] b.other_actors[i]).len() <= u64::MAX
    &&& b.columns.len() <= u64::MAX
    &&& columns::contiguous(b.columns)
    &&& columns::in_normal_order(b.columns)
    &&& columns::columns_end(b.columns) <= rest.len()
}

/// The body of a change is parsed back from the bytes it was written to.
pub proof fn body_parse_of_bytes(b: Body, rest: Seq<u8>)
    requires
        body_writable(b, rest),
    ensures
        body_parse(body_bytes(b, rest)) == Ok::<_, parse::ParseError>((b, rest)),
{
    reveal(body_parse);
    let s9 = columns::manifest(b.columns) + rest;
    let s8 = parse::concat_prefixed(b.other_actors) + s9;
    let s7 = leb::uleb_bytes(b.other_actors.len()) + s8;
    let s6 = parse::prefixed(text::text_bytes(b.message)) + s7;
    let s5 = leb::sleb_bytes(b.timestamp as int) + s6;
    let s4 = leb::uleb_bytes(b.start_op as nat) + s5;
    let s3 = leb::uleb_bytes(b.seq as nat) + s4;
    let s2 = parse::prefixed(b.actor) + s3;
    let s1 = parse::concat(b.dependencies) + s2;
    parse::lemma_u64_parse_of_bytes(b.dependencies.len() as u64, s1);
    parse::lemma_hashes_parse_of_concat(b.dependencies, s2);
    parse::lemma_bytes_parse_of_prefixed(b.actor, s3);
    parse::lemma_u64_parse_of_bytes(b.seq, s4);
    parse::lemma_u64_parse_of_bytes(b.start_op, s5);
    parse::lemma_i64_parse_of_bytes(b.timestamp, s6);
    parse::lemma_bytes_parse_of_prefixed(text::text_bytes(b.message), s7);
    text::lemma_text_of_text_bytes(b.message);
    parse::lemma_u64_parse_of_bytes(b.other_actors.len() as u64, s8);
    parse::lemma_actors_parse_of_concat(b.other_actors, s9);
    columns::columns_parse_of_manifest(b.columns, rest);
}

/// The change that `whole` holds, where its body ends in front of the last
/// `rest` bytes.
pub open spec fn change_of(whole: Seq<u8>, rest: nat, header: HeaderModel, body: Body) -> ChangeModel {
    let start = (whole.len() - rest) as usize;
    let end = (start + columns::columns_end(body.columns)) as usize;
    ChangeModel {
        bytes: whole,
        header,
        dependencies: body.dependencies,
        actor: body.actor,
        other_actors: body.other_actors,
        seq: body.seq,
        start_op: body.start_op,
        timestamp: body.timestamp,
        message: if body.message.len() == 0 {
            None
        } else {
            Some(body.message)
        },
        columns: body.columns,
        ops_data: Range { start, end },
        extra_bytes: Range { start: end, end: whole.len() as usize },
        num_ops: 0,
    }
}

/// The change that `whole` holds, of which `at` bytes are the header.
pub open spec fn change_parse(whole: Seq<u8>, at: nat, header: HeaderModel) -> Result<
    ChangeModel,
    parse::ParseError,
> {
    match body_parse(whole.skip(at as int)) {
        Err(e) => Err(e),
        Ok((body, rest)) => if columns::compressed(body.columns) {
            Err(parse::ParseError::Error(ParseError::CompressedChangeCols))
        } else {
            Ok(change_of(whole, rest.len(), header, body))
        },
    }
}

/// What a change holds in front of its columns, as it is parsed.
struct Fields {
    dependencies: Vec<ChangeHash>,
    actor: ActorId,
    seq: u64,
    start_op: u64,
    timestamp: i64,
    message: String,
    other_actors: Vec<ActorId>,
    ops_meta: RawColumns,
}

impl View for Fields {
    type V = Body;

    closed spec fn view(&self) -> Body {
        Body {
            dependencies: types::hash_names(self.dependencies@),
            actor: self.actor@,
            seq: self.seq,
            start_op: self.start_op,
            timestamp: self.timestamp,
            message: self.message@,
            other_actors: types::actor_names(self.other_actors@),
            columns: self.ops_meta@,
        }
    }
}

fn parse_fields(input: Input<'_>) -> (r: Result<(Input<'_>, Fields), parse::ParseError>)
    requires
        input.wf(),
    ensures
        input.advanced(r, |v: Fields| v@, body_parse(input.rest())),
        r matches Ok((i, fields)) ==> columns::contiguous(fields@.columns) && columns::within(
            fields@.columns,
            columns::columns_end(fields@.columns),
        ) && columns::columns_end(fields@.columns) <= i.rest().len() && fields@.start_op >= 1,
{
    proof {
        reveal(body_parse);
    }
    let (i, dependencies): (Input<'_>, Vec<ChangeHash>) = match parse::change_hashes(input) {
        Ok(read) => read,
        Err(e) => {
            return Err(e);
        },
    };
    let (i, actor): (Input<'_>, ActorId) = match parse::actor_id(i) {
        Ok(read) => read,
        Err(e) => {
            return Err(e);
        },
    };
    let (i, seq): (Input<'_>, u64) = match parse::leb128_u64(i) {
        Ok(read) => read,
        Err(e) => {
            return Err(e);
        },
    };
    let (i, start_op): (Input<'_>, u64) = match parse::nonzero_leb128_u64(i) {
        Ok(read) => read,
        Err(e) => {
            return Err(e);
        },
    };
    let (i, timestamp): (Input<'_>, i64) = match parse::leb128_i64(i) {
        Ok(read) => read,
        Err(e) => {
            return Err(e);
        },
    };
    let (i, message): (Input<'_>, String) = match parse::utf_8(i) {
        Ok(read) => read,
        Err(e) => {
            return Err(e);
        },
    };
    let (i, other_actors): (Input<'_>, Vec<ActorId>) = match parse::actor_ids(i) {
        Ok(read) => read,
        Err(e) => {
            return Err(e);
        },
    };
    proof {
        columns::lemma_columns_parse_within(i.rest());
    }
    let (i, ops_meta): (Input<'_>, RawColumns) = match RawColumns::parse(i) {
        Ok(read) => read,
        Err(e) => {
            return Err(e);
        },
    };
    Ok(
        (
            i,
            Fields {
                dependencies,
                actor,
                seq,
                start_op,
                timestamp,
                message,
                other_actors,
                ops_meta,
            },
        ),
    )
}

impl<'a> Change<'a, Unverified> {
    /// Parses a change with its header.
    pub fn parse(input: Input<'a>) -> (r: Result<
        (Input<'a>, Change<'a, Unverified>),
        parse::ParseError,
    >)
        requires
            input.wf(),
        ensures
            match chunk::header_parse(input.rest()) {
                Err(e) => r == Err::<(Input<'a>, Change<'a, Unverified>), _>(e),
                Ok((header, _)) => {
                    let start = input.at() + header.size;
                    let end = (start + header.data_len) as int;
                    match change_parse(input.whole().take(end), start, header) {
                        Err(e) => r == Err::<(Input<'a>, Change<'a, Unverified>), _>(e),
                        Ok(change) => r matches Ok((i, c)) && c@ == change && i.wf() && i.rest()
                            == input.whole().skip(end),
                    }
                },
            },
    {
        proof {
            chunk::lemma_header_parse_size(input.rest());
        }
        let (i, header): (Input<'a>, Header) = match Header::parse(input) {
            Ok(read) => read,
            Err(e) => {
                return Err(e);
            },
        };
        let split = i.split(header.data_len());
        assert(i.at() == input.at() + header@.size);
        assert(split.remaining.rest() =~= input.whole().skip(
            (input.at() + header@.size + header@.data_len) as int,
        ));
        match Change::parse_following_header(split.first, header) {
            Ok(change) => Ok((split.remaining, change)),
            Err(e) => Err(e),
        }
    }

    /// Parses a change behind its header. The input holds the whole chunk, of
    /// which the header has been read.
    pub fn parse_following_header(input: Input<'a>, header: Header) -> (r: Result<
        Change<'a, Unverified>,
        parse::ParseError,
    >)
        requires
            input.wf(),
            header@.size <= input.whole().len(),
        ensures
            match r {
                Ok(change) => change_parse(input.whole(), input.at(), header@) == Ok::<
                    _,
                    parse::ParseError,
                >(change@),
                Err(e) => change_parse(input.whole(), input.at(), header@) == Err::<
                    ChangeModel,
                    _,
                >(e),
            },
    {
        let (i, fields): (Input<'a>, Fields) = match parse_fields(input) {
            Ok(read) => read,
            Err(e) => {
                return Err(e);
            },
        };
        let start: usize = i.position();
        let room: usize = i.remaining();
        let total: usize = fields.ops_meta.total_column_len();
        let end: usize = start + total;
        let ops_data: Range<usize> = start..end;
        let extra_bytes: Range<usize> = end..start + room;
        let ops_meta: RawColumns = match fields.ops_meta.uncompressed() {
            Some(ops_meta) => ops_meta,
            None => {
                return Err(parse::ParseError::Error(ParseError::CompressedChangeCols));
            },
        };
        let message: Option<String> = if is_empty_text(&fields.message) {
            None
        } else {
            Some(fields.message)
        };
        Ok(
            Change {
                bytes: Cow::Borrowed(input.bytes()),
                header,
                dependencies: fields.dependencies,
                actor: fields.actor,
                other_actors: fields.other_actors,
                seq: fields.seq,
                start_op: fields.start_op,
                timestamp: fields.timestamp,
                message,
                ops_meta,
                ops_data,
                extra_bytes,
                num_ops: 0,
                _phantom: PhantomData,
            },
        )
    }

    /// Reads the operations of the change. What is read may be an error.
    pub fn iter_ops(&self) -> (r: ChangeOpIterUnverified<'_>)
        ensures
            r@ == self@.rows(),
    {
        self.read_ops()
    }

    /// Reads all operations of the change, up to the first error, and appends
    /// them to `seen`. A change without errors is then verified.
    pub fn verify_ops(self, seen: &mut Vec<OpBuilder>) -> (r: Result<
        Change<'a, Verified>,
        ReadChangeOpError,
    >)
        ensures
            op::op_models(final(seen)@) == op::op_models(old(seen)@) + self@.ops().0,
            match r {
                Ok(change) => self@.ops().1 is None && self@.start_op <= u32::MAX && change@ == (
                ChangeModel { num_ops: self@.ops().0.len(), ..self@ }),
                Err(e) => match self@.ops().1 {
                    Some(fault) => e@ == fault,
                    None => self@.start_op > u32::MAX && e is CounterTooLarge,
                },
            },
    {
        proof {
            use_type_invariant(&self);
        }
        let mut num_ops: usize = 0;
        let mut it = self.iter_ops();
        let ghost before = op::op_models(seen@);
        let ghost all = self@.ops();
        proof {
            assert(before + all.0 =~= op::op_models(seen@) + all.0);
            match it@ {
                Some(rows) => {
                    lemma_no_rows_read(
                        self@.columns,
                        self@.column_bytes(),
                        self@.start_op as nat,
                        self@.columns.len(),
                    );
                },
                None => {
                    assert(op::op_models(seen@) + all.0 =~= op::op_models(seen@));
                },
            }
        }
        loop
            invariant
                it@ is None ==> before + all.0 == op::op_models(seen@) && all.1 is None && num_ops
                    == 0 && all.0.len() == 0,
                it@ matches Some(rows) ==> {
                    &&& before + all.0 == op::op_models(seen@) + iter::read_all(rows).0
                    &&& all.1 == iter::read_all(rows).1
                    &&& rows.next_idx == num_ops
                    &&& all.0.len() == num_ops + iter::read_all(rows).0.len()
                    &&& num_ops > 0 ==> rows.start_op + num_ops <= u32::MAX + 1
                    &&& rows.start_op == self.start_op
                    &&& rows.start_op >= 1
                },
                all == self@.ops(),
                before == op::op_models(old(seen)@),
                self@.wf(),
            ensures
                before + all.0 == op::op_models(seen@),
                all.1 is None,
                num_ops == all.0.len(),
                num_ops > 0 ==> self.start_op + num_ops <= u32::MAX + 1,
            decreases (match it@ {
                Some(rows) => rows.action.cells.len(),
                None => 0,
            }),
        {
            let ghost rows_before = it@;
            proof {
                match it@ {
                    Some(rows) => iter::lemma_read_row(rows),
                    None => {},
                }
            }
            match it.next() {
                None => {
                    proof {
                        assert(op::op_models(seen@) + Seq::<OpModel>::empty() =~= op::op_models(seen@));
                    }
                    break;
                },
                Some(Err(e)) => {
                    proof {
                        assert(op::op_models(seen@) + Seq::<OpModel>::empty() =~= op::op_models(seen@));
                    }
                    return Err(e);
                },
                Some(Ok(next)) => {
                    let ghost seen_before = seen@;
                    let ghost model = next@;
                    seen.push(next);
                    proof {
                        let rest = iter::read_all(it@->0).0;
                        assert(op::op_models(seen_before) + (seq![model] + rest) =~= op::op_models(seen@)
                            + rest);
                    }
                    num_ops += 1;
                },
            }
        }
        if self.start_op > 0xffff_ffff {
            return Err(ReadChangeOpError::CounterTooLarge);
        }
        Ok(
            Change {
                bytes: self.bytes,
                header: self.header,
                dependencies: self.dependencies,
                actor: self.actor,
                other_actors: self.other_actors,
                seq: self.seq,
                start_op: self.start_op,
                timestamp: self.timestamp,
                message: self.message,
                ops_meta: self.ops_meta,
                ops_data: self.ops_data,
                extra_bytes: self.extra_bytes,
                num_ops,
                _phantom: PhantomData,
            },
        )
    }
}

fn is_empty_text(s: &String) -> (r: bool)
    ensures
        r == (s@.len() == 0),
{
    let bytes = s.as_str().as_bytes();
    proof {
        text::lemma_text_of_text_bytes(s@);
        text::lemma_text_empty(bytes@);
    }
    bytes.len() == 0
}

/// Rows that are placed have not been read.
pub proof fn lemma_no_rows_read(cols: Seq<RawColumn>, data: Seq<u8>, start_op: nat, n: nat)
    ensures
        iter::place_all(cols, data, start_op, n) matches Ok(r) ==> r.next_idx == 0 && r.start_op
            == start_op,
    decreases n,
{
    if n > 0 {
        lemma_no_rows_read(cols, data, start_op, (n - 1) as nat);
    }
}

impl<'a> Change<'a, Verified> {
    /// A change that was built.
    pub(crate) fn from_parts(
        bytes: Vec<u8>,
        header: Header,
        dependencies: Vec<ChangeHash>,
        actor: ActorId,
        other_actors: Vec<ActorId>,
        seq: u64,
        start_op: u64,
        timestamp: i64,
        message: Option<String>,
        ops_meta: RawColumns,
        ops_data: Range<usize>,
        extra_bytes: Range<usize>,
        num_ops: usize,
    ) -> (r: Change<'static, Verified>)
        requires
            header@.size <= bytes@.len(),
            ops_data.start <= ops_data.end <= bytes@.len(),
            extra_bytes.start <= extra_bytes.end == bytes@.len(),
            columns::within(ops_meta@, (ops_data.end - ops_data.start) as nat),
            1 <= start_op,
            start_op + num_ops <= u64::MAX,
        ensures
            r@ == (ChangeModel {
                bytes: bytes@,
                header: header@,
                dependencies: types::hash_names(dependencies@),
                actor: actor@,
                other_actors: types::actor_names(other_actors@),
                seq,
                start_op,
                timestamp,
                message: cells::opt_text(message),
                columns: ops_meta@,
                ops_data,
                extra_bytes,
                num_ops: num_ops as nat,
            }),
    {
        Change {
            bytes: Cow::Owned(bytes),
            header,
            dependencies,
            actor,
            other_actors,
            seq,
            start_op,
            timestamp,
            message,
            ops_meta,
            ops_data,
            extra_bytes,
            num_ops,
            _phantom: PhantomData,
        }
    }

    /// How many operations the change has.
    pub fn len(&self) -> (r: usize)
        ensures
            r == self@.num_ops,
    {
        self.num_ops
    }

    /// Reads the operations of the change.
    pub fn iter_ops(&self) -> (r: ChangeOpIter<'_>)
        ensures
            r@ == self@.rows(),
            self@.ops().1 is None ==> iter::readable(r@),
    {
        proof {
            use_type_invariant(self);
        }
        ChangeOpIter::new(&self.ops_meta, self.ops_data(), self.start_op)
    }
}

impl<'a, O: OpReadState> Change<'a, O> {
    /// The ranges stand within the bytes, which end with those that are not
    /// known, and there is no counter zero.
    #[verifier::type_invariant]
    pub open spec fn inv(self) -> bool {
        self@.wf()
    }

    pub fn checksum(&self) -> (r: CheckSum)
        ensures
            r@ == self@.header.checksum,
    {
        self.header.checksum()
    }

    pub fn actor(&self) -> (r: &ActorId)
        ensures
            r@ == self@.actor,
    {
        &self.actor
    }

    pub fn other_actors(&self) -> (r: &[ActorId])
        ensures
            types::actor_names(r@) == self@.other_actors,
    {
        self.other_actors.as_slice()
    }

    pub fn start_op(&self) -> (r: u64)
        ensures
            r == self@.start_op,
            r >= 1,
    {
        proof {
            use_type_invariant(self);
        }
        self.start_op
    }

    pub fn message(&self) -> (r: Option<&str>)
        ensures
            match r {
                Some(s) => self@.message == Some(s@),
                None => self@.message is None,
            },
    {
        match &self.message {
            Some(s) => Some(s.as_str()),
            None => None,
        }
    }

    pub fn dependencies(&self) -> (r: &[ChangeHash])
        ensures
            types::hash_names(r@) == self@.dependencies,
    {
        self.dependencies.as_slice()
    }

    pub fn seq(&self) -> (r: u64)
        ensures
            r == self@.seq,
    {
        self.seq
    }

    pub fn timestamp(&self) -> (r: i64)
        ensures
            r == self@.timestamp,
    {
        self.timestamp
    }

    pub fn extra_bytes(&self) -> (r: &[u8])
        ensures
            r@ == self@.extra(),
    {
        proof {
            use_type_invariant(self);
        }
        &self.bytes()[self.extra_bytes.start..self.extra_bytes.end]
    }

    pub fn checksum_valid(&self) -> (r: bool)
        ensures
            r == (self@.header.checksum == self@.header.hash.take(4)),
    {
        self.header.checksum_valid()
    }

    /// The bytes behind the header.
    pub fn body_bytes(&self) -> (r: &[u8])
        ensures
            r@ == self@.body(),
    {
        proof {
            use_type_invariant(self);
        }
        let bytes = self.bytes();
        let r = &bytes[self.header.len()..bytes.len()];
        assert(r@ =~= self@.body());
        r
    }

    /// The bytes of the chunk, its header among them.
    pub fn bytes(&self) -> (r: &[u8])
        ensures
            r@ == self@.bytes,
    {
        match &self.bytes {
            Cow::Borrowed(b) => b,
            Cow::Owned(b) => b.as_slice(),
        }
    }

    pub fn hash(&self) -> (r: ChangeHash)
        ensures
            r@ == self@.header.hash,
    {
        self.header.hash()
    }

    /// The bytes of the columns.
    pub fn ops_data(&self) -> (r: &[u8])
        ensures
            r@ == self@.column_bytes(),
    {
        proof {
            use_type_invariant(self);
        }
        &self.bytes()[self.ops_data.start..self.ops_data.end]
    }

    /// Reads the operations of the change. What is read may be an error.
    pub(crate) fn read_ops(&self) -> (r: ChangeOpIterUnverified<'_>)
        ensures
            r@ == self@.rows(),
    {
        proof {
            use_type_invariant(self);
        }
        ChangeOpIterUnverified::new(&self.ops_meta, self.ops_data(), self.start_op)
    }

    /// The same change, with bytes of its own.
    pub fn into_owned(self) -> (r: Change<'static, O>)
        ensures
            r@ == self@,
    {
        proof {
            use_type_invariant(&self);
        }
        let bytes: Cow<'static, [u8]> = match self.bytes {
            Cow::Borrowed(b) => Cow::Owned(copy_bytes(b)),
            Cow::Owned(b) => Cow::Owned(b),
        };
        Change {
            bytes,
            header: self.header,
            dependencies: self.dependencies,
            actor: self.actor,
            other_actors: self.other_actors,
            seq: self.seq,
            start_op: self.start_op,
            timestamp: self.timestamp,
            message: self.message,
            ops_meta: self.ops_meta,
            ops_data: self.ops_data,
            extra_bytes: self.extra_bytes,
            num_ops: self.num_ops,
            _phantom: PhantomData,
        }
    }

    /// The compressed form of the change, where that is worth it.
    pub fn compress(&self) -> (r: Option<Compressed<'static>>)
        ensures
            r is Some <==> self@.bytes.len() > DEFLATE_MIN_SIZE,
            r matches Some(c) ==> c@ == (compressed::CompressedModel {
                checksum: self@.header.checksum,
                bytes: compressed::compressed_bytes(self@.header.checksum, self@.body()),
            }) && compressed::inflated(compressed::deflated(self@.body())) == Some(self@.body()),
    {
        if self.bytes().len() > DEFLATE_MIN_SIZE {
            Some(Compressed::compress(self))
        } else {
            None
        }
    }
}

impl<'a, O: OpReadState> Clone for Change<'a, O> {
    fn clone(&self) -> (r: Self)
        ensures
            r@ == self@,
    {
        proof {
            use_type_invariant(self);
        }
        let bytes: Cow<'a, [u8]> = match &self.bytes {
            Cow::Borrowed(b) => Cow::Borrowed(b),
            Cow::Owned(b) => Cow::Owned(copy_bytes(b.as_slice())),
        };
        let message: Option<String> = match &self.message {
            Some(s) => Some(s.clone()),
            None => None,
        };
        Change {
            bytes,
            header: self.header.clone(),
            dependencies: copy_hashes(self.dependencies.as_slice()),
            actor: self.actor.clone(),
            other_actors: copy_actors(self.other_actors.as_slice()),
            seq: self.seq,
            start_op: self.start_op,
            timestamp: self.timestamp,
            message,
            ops_meta: self.ops_meta.clone(),
            ops_data: self.ops_data.start..self.ops_data.end,
            extra_bytes: self.extra_bytes.start..self.extra_bytes.end,
            num_ops: self.num_ops,
            _phantom: PhantomData,
        }
    }
}

/// Changes are equal if their bytes are.
impl<'a, O: OpReadState> PartialEq for Change<'a, O> {
    fn eq(&self, other: &Self) -> (r: bool)
        ensures
            r <==> self@.bytes == other@.bytes,
    {
        same_bytes(self.bytes(), other.bytes())
    }
}

impl<'a, O: OpReadState> vstd::std_specs::cmp::PartialEqSpecImpl for Change<'a, O> {
    open spec fn obeys_eq_spec() -> bool {
        true
    }

    open spec fn eq_spec(&self, other: &Self) -> bool {
        self@.bytes == other@.bytes
    }
}

/// Stored changes compare equal exactly where their bytes are the same.
pub proof fn stored_changes_are_equal_by_their_bytes<'a, O: OpReadState>(
    a: &Change<'a, O>,
    b: &Change<'a, O>,
)
    ensures
        vstd::std_specs::cmp::PartialEqSpec::eq_spec(a, b) <==> a@.bytes == b@.bytes,
{
}

/// The body of a change: how many changes it depends on and their hashes, its
/// actor behind its length, its sequence number, its first counter, its time,
/// its message behind its length, how many other actors it names and each behind
/// its length, how many columns it has and of each its specification and its
/// length, and what follows.
pub proof fn bodies_are_laid_out_so(b: Body, rest: Seq<u8>)
    requires
        forall|i: int|
            0 <= i < b.columns.len() ==> (#[trigger] b.columns[i]).data.start
                <= b.columns[i].data.end,
    ensures
        body_bytes(b, rest) == leb::uleb_bytes(b.dependencies.len()) + b.dependencies.flatten()
            + leb::uleb_bytes(b.actor.len()) + b.actor + leb::uleb_bytes(b.seq as nat)
            + leb::uleb_bytes(b.start_op as nat) + leb::sleb_bytes(b.timestamp as int)
            + leb::uleb_bytes(vstd::utf8::encode_utf8(b.message).len()) + vstd::utf8::encode_utf8(
            b.message,
        ) + leb::uleb_bytes(b.other_actors.len()) + b.other_actors.flat_map(
            |actor: Seq<u8>| leb::uleb_bytes(actor.len()) + actor,
        ) + leb::uleb_bytes(b.columns.len()) + b.columns.flat_map(
            |col: RawColumn|
                leb::uleb_bytes(col.spec.0 as nat) + leb::uleb_bytes(
                    (col.data.end - col.data.start) as nat,
                ),
        ) + rest,
{
    parse::lists_of_byte_strings_are_flat(b.dependencies);
    parse::lists_of_byte_strings_are_flat(b.other_actors);
    columns::lists_of_columns_are_flat(b.columns);
    let others = b.other_actors.flat_map(|actor: Seq<u8>| leb::uleb_bytes(actor.len()) + actor);
    let cols = b.columns.flat_map(
        |col: RawColumn|
            leb::uleb_bytes(col.spec.0 as nat) + leb::uleb_bytes(
                (col.data.end - col.data.start) as nat,
            ),
    );
    lemma_left_to_right(
        leb::uleb_bytes(b.dependencies.len()),
        b.dependencies.flatten(),
        leb::uleb_bytes(b.actor.len()),
        b.actor,
        leb::uleb_bytes(b.seq as nat),
        leb::uleb_bytes(b.start_op as nat),
        leb::sleb_bytes(b.timestamp as int),
        leb::uleb_bytes(vstd::utf8::encode_utf8(b.message).len()),
        vstd::utf8::encode_utf8(b.message),
        leb::uleb_bytes(b.other_actors.len()),
        others,
        leb::uleb_bytes(b.columns.len()),
        cols,
        rest,
    );
}

proof fn lemma_left_to_right(
    a: Seq<u8>,
    b: Seq<u8>,
    c: Seq<u8>,
    d: Seq<u8>,
    e: Seq<u8>,
    f: Seq<u8>,
    g: Seq<u8>,
    h: Seq<u8>,
    i: Seq<u8>,
    j: Seq<u8>,
    k: Seq<u8>,
    l: Seq<u8>,
    m: Seq<u8>,
    n: Seq<u8>,
)
    ensures
        a + (b + ((c + d) + (e + (f + (g + ((h + i) + (j + (k + ((l + m) + n))))))))) == a + b + c
            + d + e + f + g + h + i + j + k + l + m + n,
{
    let s9 = (l + m) + n;
    let s8 = k + s9;
    let s7 = j + s8;
    let s6 = (h + i) + s7;
    let s5 = g + s6;
    let s4 = f + s5;
    let s3 = e + s4;
    let s2 = (c + d) + s3;
    parse::lemma_add_assoc(a, b, s2);
    assert(a + (b + s2) == a + b + c + d + s3) by {
        parse::lemma_add_assoc(c, d, s3);
        parse::lemma_add_assoc(a + b, c, d + s3);
        parse::lemma_add_assoc(a + b + c, d, s3);
    }
    let x = a + b + c + d;
    parse::lemma_add_assoc(x, e, s4);
    parse::lemma_add_assoc(x + e, f, s5);
    parse::lemma_add_assoc(x + e + f, g, s6);
    let y = x + e + f + g;
    assert(y + s6 == y + h + i + s7) by {
        parse::lemma_add_assoc(h, i, s7);
        parse::lemma_add_assoc(y, h, i + s7);
        parse::lemma_add_assoc(y + h, i, s7);
    }
    let z = y + h + i;
    parse::lemma_add_assoc(z, j, s8);
    parse::lemma_add_assoc(z + j, k, s9);
    parse::lemma_add_assoc(l, m, n);
    parse::lemma_add_assoc(z + j + k, l, m + n);
    parse::lemma_add_assoc(z + j + k + l, m, n);
}

/// Where a body is parsed, it stands at the front, its hashes have 32 bytes each
/// and its first counter is not zero.
pub proof fn bodies_are_parsed_so(s: Seq<u8>)
    requires
        s.len() <= usize::MAX,
    ensures
        body_parse(s) matches Ok((b, rest)) ==> s == body_bytes(b, rest) && b.start_op >= 1 && (
        forall|i: int|
            0 <= i < b.dependencies.len() ==> (#[trigger] b.dependencies[i]).len() == 32),
{
    lemma_body_parse_shape(s);
}

proof fn lemma_body_parse_shape(s: Seq<u8>)
    requires
        s.len() <= usize::MAX,
    ensures
        body_parse(s) matches Ok((b, rest)) ==> {
            let on = columns::manifest(b.columns) + rest;
            &&& s == body_bytes(b, rest)
            &&& b.start_op >= 1
            &&& forall|i: int|
                0 <= i < b.dependencies.len() ==> (#[trigger] b.dependencies[i]).len() == 32
            &&& on.len() <= s.len()
            &&& columns::columns_parse(on) == Ok::<_, parse::ParseError>((b.columns, rest))
        },
{
    reveal(body_parse);
    if body_parse(s) is Ok {
        let (n, t) = parse::u64_parse(s)->Ok_0;
        parse::unsigned_numbers_are_parsed_so(s, n, t);
        parse::lemma_hashes_parse_shape(t, n as nat);
        let (deps, s2) = parse::hash_list_parse(s)->Ok_0;
        parse::lemma_bytes_parse_shape(s2);
        let (actor, s3) = parse::bytes_parse(s2)->Ok_0;
        parse::lemma_add_assoc(leb::uleb_bytes(actor.len()), actor, s3);
        let (seq, s4) = parse::u64_parse(s3)->Ok_0;
        parse::unsigned_numbers_are_parsed_so(s3, seq, s4);
        let (start_op, s5) = parse::nonzero_u64_parse(s4)->Ok_0;
        parse::unsigned_numbers_are_parsed_so(s4, start_op, s5);
        let (timestamp, s6) = parse::i64_parse(s5)->Ok_0;
        parse::signed_numbers_are_parsed_so(s5, timestamp, s6);
        parse::lemma_bytes_parse_shape(s6);
        let (raw, s7) = parse::bytes_parse(s6)->Ok_0;
        vstd::utf8::decode_utf8_encode_utf8(raw);
        parse::lemma_add_assoc(leb::uleb_bytes(raw.len()), raw, s7);
        let (m, t7) = parse::u64_parse(s7)->Ok_0;
        parse::unsigned_numbers_are_parsed_so(s7, m, t7);
        parse::lemma_actors_parse_shape(t7, m as nat);
        let (others, s8) = parse::actor_list_parse(s7)->Ok_0;
        assert(s8.len() <= s.len());
        columns::lemma_columns_parse_shape(s8);
    }
}

/// A change says what its bytes hold: they are its body behind the header, then
/// the bytes of its columns, which are not compressed, and what is not known. An
/// empty message is none.
pub proof fn changes_say_what_their_bytes_hold(whole: Seq<u8>, at: nat, header: HeaderModel)
    requires
        at <= whole.len() <= usize::MAX,
    ensures
        change_parse(whole, at, header) matches Ok(change) ==> {
            let body = Body {
                dependencies: change.dependencies,
                actor: change.actor,
                seq: change.seq,
                start_op: change.start_op,
                timestamp: change.timestamp,
                message: match change.message {
                    Some(message) => message,
                    None => Seq::empty(),
                },
                other_actors: change.other_actors,
                columns: change.columns,
            };
            &&& change.bytes == whole
            &&& change.header == header
            &&& whole.skip(at as int) == body_bytes(body, change.column_bytes() + change.extra())
            &&& change.columns.len() > 0 ==> change.column_bytes().len()
                == change.columns.last().data.end
            &&& change.columns.len() == 0 ==> change.column_bytes().len() == 0
            &&& change.message != Some(Seq::<char>::empty())
            &&& forall|i: int|
                0 <= i < change.columns.len() ==> ((#[trigger] change.columns[i]).spec.0 / 8) % 2
                    == 0
        },
{
    let s = whole.skip(at as int);
    bodies_are_parsed_so(s);
    lemma_columns_follow(s);
    match body_parse(s) {
        Ok((b, rest)) => {
            if !columns::compressed(b.columns) {
                let change = change_of(whole, rest.len(), header, b);
                assert(rest =~= s.skip(s.len() - rest.len()));
                assert(change.column_bytes() + change.extra() =~= rest);
                if b.message.len() == 0 {
                    assert(b.message =~= Seq::empty());
                }
                assert forall|i: int| 0 <= i < b.columns.len() implies ((
                #[trigger] b.columns[i]).spec.0 / 8) % 2 == 0 by {
                    columns::every_number_is_a_specification(b.columns[i].spec);
                }
            }
        },
        Err(_) => {},
    }
}

proof fn lemma_columns_follow(s: Seq<u8>)
    requires
        s.len() <= usize::MAX,
    ensures
        body_parse(s) matches Ok((b, rest)) ==> columns::columns_end(b.columns) <= rest.len()
            <= s.len() && rest == s.skip(s.len() - rest.len()),
{
    lemma_body_parse_shape(s);
    match body_parse(s) {
        Ok((b, rest)) => {
            columns::lemma_columns_parse_within(columns::manifest(b.columns) + rest);
            bodies_are_laid_out_so(b, rest);
            assert(rest =~= s.skip(s.len() - rest.len()));
        },
        Err(_) => {},
    }
}

/// A body fails with the first of its parts that fails: the hashes, the actor, the
/// sequence number, the first counter, the time, the message, the other actors and
/// the columns.
pub proof fn bodies_fail_so(s: Seq<u8>)
    ensures
        ({
            let deps = parse::hash_list_parse(s);
            let actor = parse::bytes_parse(deps->Ok_0.1);
            let seq = parse::u64_parse(actor->Ok_0.1);
            let start_op = parse::nonzero_u64_parse(seq->Ok_0.1);
            let time = parse::i64_parse(start_op->Ok_0.1);
            let message = parse::text_parse(time->Ok_0.1);
            let others = parse::actor_list_parse(message->Ok_0.1);
            let cols = columns::columns_parse(others->Ok_0.1);
            let failed = |e: parse::ParseError| body_parse(s) == Err::<(Body, Seq<u8>), _>(e);
            if deps is Err {
                failed(deps->Err_0)
            } else if actor is Err {
                failed(actor->Err_0)
            } else if seq is Err {
                failed(seq->Err_0)
            } else if start_op is Err {
                failed(start_op->Err_0)
            } else if time is Err {
                failed(time->Err_0)
            } else if message is Err {
                failed(message->Err_0)
            } else if others is Err {
                failed(others->Err_0)
            } else if cols is Err {
                failed(cols->Err_0)
            } else {
                body_parse(s) is Ok
            }
        }),
{
    reveal(body_parse);
}

/// A change fails as its body does, and where one of its columns is compressed.
pub proof fn changes_fail_so(whole: Seq<u8>, at: nat, header: HeaderModel)
    ensures
        match body_parse(whole.skip(at as int)) {
            Err(e) => change_parse(whole, at, header) == Err::<ChangeModel, _>(e),
            Ok((b, _)) => if exists|i: int|
                0 <= i < b.columns.len() && ((#[trigger] b.columns[i]).spec.0 / 8) % 2 == 1 {
                change_parse(whole, at, header) == Err::<ChangeModel, _>(
                    parse::ParseError::Error(ParseError::CompressedChangeCols),
                )
            } else {
                change_parse(whole, at, header) is Ok
            },
        },
{
    match body_parse(whole.skip(at as int)) {
        Ok((b, _)) => {
            assert forall|i: int| 0 <= i < b.columns.len() implies ((
            #[trigger] b.columns[i]).spec.spec_deflate() <==> (b.columns[i].spec.0 / 8) % 2
                == 1) by {
                columns::every_number_is_a_specification(b.columns[i].spec);
            }
        },
        Err(_) => {},
    }
}

/// An error of a read shows what it is.
pub proof fn read_errors_are_shown(e: ReadChangeOpError)
    ensures
        match e {
            ReadChangeOpError::DecodeError(d) => e@ == ReadFault::Decode(d@),
            ReadChangeOpError::InvalidOpType(t) => e@ == ReadFault::InvalidOpType(t),
            ReadChangeOpError::CounterTooLarge => e@ is CounterTooLarge,
        },
{
}

} // verus!
