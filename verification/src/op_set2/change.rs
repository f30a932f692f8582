//! Building of changes.
use super::op::{self, OpBuilder, OpModel};
use crate::columnar::encoding::cells;
use crate::leb;
use crate::storage::change::{Body, Change, ChangeModel, Verified};
use crate::storage::chunk::{self, ChunkType, Header};
use crate::storage::columns::{self as storage_columns, RawColumns};
use crate::storage::{change as stored, parse};
use crate::text;
use crate::types::{self, ActorId, ChangeHash};
use std::borrow::Cow;
use std::ops::Range;
use vstd::prelude::*;

pub mod columns;
pub mod mapper;
pub mod round_trip;
use columns::ChangeOpsColumns;
use mapper::{ActorMapper, MapperModel};

verus! {

/// A list of changes by their hashes.
pub trait GetHash {
    spec fn hashes(&self) -> Seq<Seq<u8>>;

    /// The hash of the `index`-th change, where there is one.
    fn get_hash(&self, index: usize) -> (r: Option<ChangeHash>)
        ensures
            match r {
                Some(hash) => index < self.hashes().len() && hash@ == self.hashes()[index as int],
                None => index >= self.hashes().len(),
            },
    ;
}

impl<'a> GetHash for &'a [ChangeHash] {
    open spec fn hashes(&self) -> Seq<Seq<u8>> {
        types::hash_names(self@)
    }

    fn get_hash(&self, index: usize) -> (r: Option<ChangeHash>)
        ensures
            r is Some <==> index < self@.len(),
            r matches Some(hash) ==> hash == self@[index as int],
    {
        if index < self.len() {
            Some(self[index])
        } else {
            None
        }
    }
}

/// What a change is besides its operations.
#[derive(Debug)]
pub struct BuildChangeMetadata<'a> {
    /// The author, as an index into a list of actors.
    pub actor: usize,
    pub builder: usize,
    pub seq: u64,
    /// The highest counter before the change.
    pub max_op: u64,
    pub timestamp: i64,
    pub message: Option<String>,
    /// The changes before this one, as indices into a list of changes.
    pub deps: Vec<u64>,
    pub extra: Cow<'a, [u8]>,
    pub start_op: u64,
}

/// The model of a `BuildChangeMetadata`.
pub struct MetadataModel {
    pub actor: nat,
    pub seq: u64,
    pub max_op: u64,
    pub timestamp: i64,
    pub message: Option<Seq<char>>,
    pub deps: Seq<u64>,
    pub extra: Seq<u8>,
}

impl<'a> View for BuildChangeMetadata<'a> {
    type V = MetadataModel;

    open spec fn view(&self) -> MetadataModel {
        MetadataModel {
            actor: self.actor as nat,
            seq: self.seq,
            max_op: self.max_op,
            timestamp: self.timestamp,
            message: cells::opt_text(self.message),
            deps: self.deps@,
            extra: self.extra@,
        }
    }
}

impl MetadataModel {
    /// The message, which is empty where there is none.
    pub open spec fn message_text(self) -> Seq<char> {
        match self.message {
            Some(s) => s,
            None => Seq::empty(),
        }
    }
}

impl<'a> BuildChangeMetadata<'a> {
    fn extra_slice(&self) -> (r: &[u8])
        ensures
            r@ == self@.extra,
    {
        match &self.extra {
            Cow::Borrowed(b) => b,
            Cow::Owned(b) => b.as_slice(),
        }
    }

    /// The message, which is empty where there is none.
    pub fn message_str(&self) -> (r: &str)
        ensures
            r@ == self@.message_text(),
    {
        match &self.message {
            Some(s) => s.as_str(),
            None => {
                proof {
                    reveal_strlit("");
                    assert(""@ =~= Seq::<char>::empty());
                }
                ""
            },
        }
    }
}

/// The counter of the first operation; without one, the next that is free.
pub open spec fn first_counter(ops: Seq<OpModel>, max_op: u64) -> u64 {
    if ops.len() > 0 {
        ops[0].id.counter as u64
    } else {
        (max_op + 1) as u64
    }
}

/// Where the columns of some operations stand.
pub open spec fn op_columns(ops: Seq<OpModel>, author: nat) -> ChangeOpsColumns {
    if ops.len() == 0 {
        columns::no_columns()
    } else {
        columns::columns_of(columns::column_parts(ops, author))
    }
}

/// The bytes of the columns of some operations.
pub open spec fn op_data(ops: Seq<OpModel>, author: nat) -> Seq<u8> {
    if ops.len() == 0 {
        Seq::empty()
    } else {
        parse::concat(columns::column_parts(ops, author))
    }
}

/// The hashes of the dependencies of a change.
pub open spec fn dependency_hashes(deps: Seq<u64>, hashes: Seq<Seq<u8>>) -> Seq<Seq<u8>> {
    Seq::new(deps.len(), |i: int| hashes[deps[i] as int])
}

/// The names of the other actors of a change.
pub open spec fn other_names(m: MapperModel) -> Seq<Seq<u8>> {
    Seq::new(m.others.len(), |i: int| m.actors[m.others[i] as int])
}

/// The body of a change.
pub open spec fn built_body(
    ops: Seq<OpModel>,
    meta: MetadataModel,
    hashes: Seq<Seq<u8>>,
    mapper: MapperModel,
) -> Body {
    Body {
        dependencies: dependency_hashes(meta.deps, hashes),
        actor: mapper.actors[meta.actor as int],
        seq: meta.seq,
        start_op: first_counter(ops, meta.max_op),
        timestamp: meta.timestamp,
        message: meta.message_text(),
        other_actors: other_names(mapper),
        columns: op_columns(ops, meta.actor).raw_columns(),
    }
}

/// The bytes behind the header of a change.
pub open spec fn built_data(
    ops: Seq<OpModel>,
    meta: MetadataModel,
    hashes: Seq<Seq<u8>>,
    mapper: MapperModel,
) -> Seq<u8> {
    stored::body_bytes(
        built_body(ops, meta, hashes, mapper),
        op_data(ops, meta.actor) + meta.extra,
    )
}

/// The bytes of a change with its header.
pub open spec fn change_bytes(data: Seq<u8>) -> Seq<u8> {
    chunk::header_bytes(
        chunk::new_header(ChunkType::Change, data).checksum,
        ChunkType::Change,
        data.len(),
    ) + data
}

/// The change of some operations.
pub open spec fn built_change(
    ops: Seq<OpModel>,
    meta: MetadataModel,
    hashes: Seq<Seq<u8>>,
    mapper: MapperModel,
) -> ChangeModel {
    let data = built_data(ops, meta, hashes, mapper);
    let bytes = change_bytes(data);
    let extra_start = bytes.len() - meta.extra.len();
    let start = extra_start - op_data(ops, meta.actor).len();
    let body = built_body(ops, meta, hashes, mapper);
    ChangeModel {
        bytes,
        header: chunk::new_header(ChunkType::Change, data),
        dependencies: body.dependencies,
        actor: body.actor,
        other_actors: body.other_actors,
        seq: body.seq,
        start_op: body.start_op,
        timestamp: body.timestamp,
        message: meta.message,
        columns: body.columns,
        ops_data: Range { start: start as usize, end: extra_start as usize },
        extra_bytes: Range { start: extra_start as usize, end: bytes.len() as usize },
        num_ops: ops.len(),
    }
}

/// What a change can be built of.
pub open spec fn buildable(
    ops: Seq<OpModel>,
    meta: MetadataModel,
    hashes: Seq<Seq<u8>>,
    actors: nat,
) -> bool {
    &&& meta.actor < actors <= u32::MAX
    &&& ops.len() > 0 ==> columns::writable(ops, meta.actor, actors) && ops[0].id.counter >= 1
    &&& ops.len() == 0 ==> meta.max_op < u64::MAX
    &&& forall|i: int|
        0 <= i < meta.deps.len() ==> (#[trigger] meta.deps[i]) < hashes.len() && meta.deps[i]
            <= usize::MAX
}

/// What reading the columns of a change gives is what they were written of.
pub open spec fn columns_read_back(ops: Seq<OpModel>, author: nat) -> bool {
    ops.len() > 0 ==> columns::reads_back(columns::column_parts(ops, author), ops, author)
}

/// The range, moved.
pub fn shift_range(range: Range<usize>, by: usize) -> (r: Range<usize>)
    requires
        range.start + by <= usize::MAX,
        range.end + by <= usize::MAX,
    ensures
        r.start == range.start + by,
        r.end == range.end + by,
{
    range.start + by..range.end + by
}

/// Appends bytes behind their length, and returns how many were appended.
pub fn length_prefixed_bytes(b: &[u8], out: &mut Vec<u8>) -> (r: usize)
    ensures
        final(out)@ == old(out)@ + parse::prefixed(b@),
        r == parse::prefixed(b@).len(),
{
    let before: usize = out.len();
    leb::write_unsigned(out, b.len() as u64);
    out.extend_from_slice(b);
    assert(out@ =~= old(out)@ + parse::prefixed(b@));
    out.len() - before
}

fn look_up_hashes<G: GetHash>(deps: &Vec<u64>, graph: &G) -> (r: Vec<ChangeHash>)
    requires
        forall|i: int|
            0 <= i < deps@.len() ==> (#[trigger] deps@[i]) < graph.hashes().len() && deps@[i]
                <= usize::MAX,
    ensures
        types::hash_names(r@) == dependency_hashes(deps@, graph.hashes()),
{
    let mut out: Vec<ChangeHash> = Vec::new();
    let mut i: usize = 0;
    while i < deps.len()
        invariant
            i <= deps.len(),
            forall|i: int|
                0 <= i < deps@.len() ==> (#[trigger] deps@[i]) < graph.hashes().len() && deps@[i]
                    <= usize::MAX,
            out@.len() == i,
            forall|j: int|
                0 <= j < i ==> (#[trigger] out@[j])@ == graph.hashes()[deps@[j] as int],
        decreases deps.len() - i,
    {
        assert(deps@[i as int] < graph.hashes().len());
        match graph.get_hash(deps[i] as usize) {
            Some(hash) => {
                out.push(hash);
            },
            None => {},
        }
        i += 1;
    }
    assert(types::hash_names(out@) =~= dependency_hashes(deps@, graph.hashes()));
    out
}

fn write_dependencies(deps: &Vec<ChangeHash>, out: &mut Vec<u8>)
    ensures
        final(out)@ == old(out)@ + parse::concat(types::hash_names(deps@)),
{
    let ghost names = types::hash_names(deps@);
    let mut i: usize = 0;
    assert(names.skip(0) =~= names);
    while i < deps.len()
        invariant
            i <= deps.len(),
            names == types::hash_names(deps@),
            out@ + parse::concat(names.skip(i as int)) == old(out)@ + parse::concat(names),
        decreases deps.len() - i,
    {
        let ghost before = out@;
        let bytes = deps[i].as_bytes();
        out.extend_from_slice(bytes);
        proof {
            assert(out@ =~= before + bytes@);
            assert(names.skip(i as int).drop_first() =~= names.skip(i + 1));
            parse::lemma_add_assoc(before, bytes@, parse::concat(names.skip(i + 1)));
        }
        i += 1;
    }
    assert(out@ + parse::concat(names.skip(i as int)) =~= out@);
}

fn write_actors(actors: &Vec<ActorId>, out: &mut Vec<u8>)
    ensures
        final(out)@ == old(out)@ + parse::concat_prefixed(types::actor_names(actors@)),
{
    let ghost names = types::actor_names(actors@);
    let mut i: usize = 0;
    assert(names.skip(0) =~= names);
    while i < actors.len()
        invariant
            i <= actors.len(),
            names == types::actor_names(actors@),
            out@ + parse::concat_prefixed(names.skip(i as int)) == old(out)@
                + parse::concat_prefixed(names),
        decreases actors.len() - i,
    {
        let ghost before = out@;
        length_prefixed_bytes(actors[i].to_bytes(), out);
        proof {
            assert(names.skip(i as int).drop_first() =~= names.skip(i + 1));
            parse::lemma_add_assoc(
                before,
                parse::prefixed(names[i as int]),
                parse::concat_prefixed(names.skip(i + 1)),
            );
        }
        i += 1;
    }
    assert(out@ + parse::concat_prefixed(names.skip(i as int)) =~= out@);
}

/// What is in front of the columns of a change, as it is written.
struct Front<'a> {
    dependencies: &'a Vec<ChangeHash>,
    actor: &'a ActorId,
    seq: u64,
    start_op: u64,
    timestamp: i64,
    message: &'a str,
    other_actors: &'a Vec<ActorId>,
    columns: &'a RawColumns,
}

impl<'a> View for Front<'a> {
    type V = Body;

    closed spec fn view(&self) -> Body {
        Body {
            dependencies: types::hash_names(self.dependencies@),
            actor: self.actor@,
            seq: self.seq,
            start_op: self.start_op,
            timestamp: self.timestamp,
            message: self.message@,
            other_actors: types::actor_names(self.other_actors@),
            columns: self.columns@,
        }
    }
}

proof fn lemma_countable_names(deps: &Vec<ChangeHash>, actor: &ActorId, others: &Vec<ActorId>)
    ensures
        deps@.len() <= usize::MAX,
        actor@.len() <= usize::MAX,
        others@.len() <= usize::MAX,
        forall|i: int| 0 <= i < deps@.len() ==> (#[trigger] types::hash_names(deps@)[i]).len() == 32,
        forall|i: int|
            0 <= i < others@.len() ==> (#[trigger] types::actor_names(others@)[i]).len()
                <= usize::MAX,
{
    assert(deps.len() <= usize::MAX);
    assert(actor.0.len() <= usize::MAX);
    assert(others.len() <= usize::MAX);
    assert forall|i: int| 0 <= i < others@.len() implies (
    #[trigger] types::actor_names(others@)[i]).len() <= usize::MAX by {
        assert(others@[i].0.len() <= usize::MAX);
    }
}

/// The body of a change in front of its columns. Whatever follows it makes it
/// the body of a change.
fn write_body(front: &Front<'_>) -> (r: Vec<u8>)
    requires
        storage_columns::within(front@.columns, usize::MAX as nat),
    ensures
        forall|rest: Seq<u8>| #[trigger] (r@ + rest) == stored::body_bytes(front@, rest),
        round_trip::countable(front@),
{
    let ghost b = front@;
    proof {
        lemma_countable_names(front.dependencies, front.actor, front.other_actors);
    }
    let mut data: Vec<u8> = Vec::new();
    leb::write_unsigned(&mut data, front.dependencies.len() as u64);
    let ghost d1 = data@;
    write_dependencies(front.dependencies, &mut data);
    let ghost d2 = data@;
    length_prefixed_bytes(front.actor.to_bytes(), &mut data);
    let ghost d3 = data@;
    leb::write_unsigned(&mut data, front.seq);
    let ghost d4 = data@;
    leb::write_unsigned(&mut data, front.start_op);
    let ghost d5 = data@;
    leb::write_signed(&mut data, front.timestamp);
    let ghost d6 = data@;
    let message = front.message.as_bytes();
    assert(message.len() <= usize::MAX);
    length_prefixed_bytes(message, &mut data);
    let ghost d7 = data@;
    leb::write_unsigned(&mut data, front.other_actors.len() as u64);
    let ghost d8 = data@;
    write_actors(front.other_actors, &mut data);
    let ghost d9 = data@;
    front.columns.write(&mut data);
    proof {
        assert forall|rest: Seq<u8>| #[trigger] (data@ + rest) == stored::body_bytes(b, rest) by {
            let s9 = storage_columns::manifest(b.columns) + rest;
            let s8 = parse::concat_prefixed(b.other_actors) + s9;
            let s7 = leb::uleb_bytes(b.other_actors.len()) + s8;
            let s6 = parse::prefixed(text::text_bytes(b.message)) + s7;
            let s5 = leb::sleb_bytes(b.timestamp as int) + s6;
            let s4 = leb::uleb_bytes(b.start_op as nat) + s5;
            let s3 = leb::uleb_bytes(b.seq as nat) + s4;
            let s2 = parse::prefixed(b.actor) + s3;
            let s1 = parse::concat(b.dependencies) + s2;
            parse::lemma_add_assoc(d9, storage_columns::manifest(b.columns), rest);
            parse::lemma_add_assoc(d8, parse::concat_prefixed(b.other_actors), s9);
            parse::lemma_add_assoc(d7, leb::uleb_bytes(b.other_actors.len()), s8);
            parse::lemma_add_assoc(d6, parse::prefixed(text::text_bytes(b.message)), s7);
            parse::lemma_add_assoc(d5, leb::sleb_bytes(b.timestamp as int), s6);
            parse::lemma_add_assoc(d4, leb::uleb_bytes(b.start_op as nat), s5);
            parse::lemma_add_assoc(d3, leb::uleb_bytes(b.seq as nat), s4);
            parse::lemma_add_assoc(d2, parse::prefixed(b.actor), s3);
            parse::lemma_add_assoc(d1, parse::concat(b.dependencies), s2);
            assert(d1 =~= leb::uleb_bytes(b.dependencies.len()));
        }
    }
    data
}

/// The chunk of which `data` is the body.
fn write_chunk(header: &Header, data: &Vec<u8>) -> (r: Vec<u8>)
    requires
        header@ == chunk::new_header(ChunkType::Change, data@),
    ensures
        r@ == change_bytes(data@),
        r@.len() == header@.size + data@.len(),
        r@.len() <= usize::MAX,
{
    let mut bytes: Vec<u8> = Vec::new();
    header.write(&mut bytes);
    bytes.extend_from_slice(data.as_slice());
    assert(bytes@ =~= change_bytes(data@));
    assert(bytes.len() <= usize::MAX);
    bytes
}

/// Builds the change of `ops`. The mapper keeps the actors of the change; it is
/// not touched where there are no operations, and then the actors it had stay
/// those of the change.
pub fn build_change_inner<G: GetHash>(
    ops: &[OpBuilder],
    meta: &BuildChangeMetadata<'_>,
    graph: &G,
    mapper: &mut ActorMapper<'_>,
) -> (r: Change<'static, Verified>)
    requires
        old(mapper)@.wf(),
        buildable(op::op_models(ops@), meta@, graph.hashes(), old(mapper)@.actors.len()),
    ensures
        final(mapper)@.wf(),
        final(mapper)@.actors == old(mapper)@.actors,
        ops@.len() == 0 ==> final(mapper)@ == old(mapper)@,
        ops@.len() > 0 ==> final(mapper)@.maps(op::op_models(ops@), meta@.actor),
        r@ == built_change(op::op_models(ops@), meta@, graph.hashes(), final(mapper)@),
        columns_read_back(op::op_models(ops@), meta@.actor),
        round_trip::countable(
            built_body(op::op_models(ops@), meta@, graph.hashes(), final(mapper)@),
        ),
        r@.bytes.len() <= usize::MAX,
        r@.header.checksum.len() == 4,
{
    let ghost models = op::op_models(ops@);
    let mut col_data: Vec<u8> = Vec::new();
    let start_op: u64 = if ops.len() > 0 {
        ops[0].id.counter()
    } else {
        meta.max_op + 1
    };
    let ops_meta = columns::write_change_ops(ops, meta.actor, &mut col_data, mapper);
    proof {
        if ops@.len() > 0 {
            columns::lemma_laid_out(ops_meta, columns::column_parts(models, meta@.actor));
        }
        assert(col_data@ =~= op_data(models, meta@.actor));
        assert(ops_meta == op_columns(models, meta@.actor));
        assert(col_data.len() <= usize::MAX);
        lemma_op_columns(models, meta@.actor);
    }
    let actor = mapper.actor(meta.actor);
    let other_actors = mapper.iter();
    let dependencies = look_up_hashes(&meta.deps, graph);
    let raw_cols = ops_meta.to_raw_columns();
    let front = Front {
        dependencies: &dependencies,
        actor: &actor,
        seq: meta.seq,
        start_op,
        timestamp: meta.timestamp,
        message: meta.message_str(),
        other_actors: &other_actors,
        columns: &raw_cols,
    };
    proof {
        assert(types::actor_names(other_actors@) =~= other_names(mapper@));
        assert(front@ == built_body(models, meta@, graph.hashes(), mapper@));
    }
    let mut data: Vec<u8> = write_body(&front);
    let ghost head = data@;
    let ops_start: usize = data.len();
    data.append(&mut col_data);
    let extra_start: usize = data.len();
    data.extend_from_slice(meta.extra_slice());
    let data_end: usize = data.len();
    proof {
        let cols = op_data(models, meta@.actor);
        assert(data@ =~= (head + cols) + meta@.extra);
        parse::lemma_add_assoc(head, cols, meta@.extra);
        assert(head + (cols + meta@.extra) == stored::body_bytes(front@, cols + meta@.extra));
        assert(data@ == built_data(models, meta@, graph.hashes(), mapper@));
    }
    let header = Header::new(ChunkType::Change, data.as_slice());
    let bytes = write_chunk(&header, &data);
    let ops_data = shift_range(ops_start..extra_start, header.len());
    let extra_bytes = shift_range(extra_start..data_end, header.len());
    let message: Option<String> = match &meta.message {
        Some(s) => Some(s.clone()),
        None => None,
    };
    Change::from_parts(
        bytes,
        header,
        dependencies,
        actor,
        other_actors,
        meta.seq,
        start_op,
        meta.timestamp,
        message,
        raw_cols,
        ops_data,
        extra_bytes,
        ops.len(),
    )
}

/// Builds the change of `ops`.
pub fn build_change<G: GetHash>(
    ops: &[OpBuilder],
    meta: &BuildChangeMetadata<'_>,
    graph: &G,
    actors: &[ActorId],
) -> (r: Change<'static, Verified>)
    requires
        buildable(op::op_models(ops@), meta@, graph.hashes(), actors@.len()),
    ensures
        r@ == fresh_change(
            op::op_models(ops@),
            meta@,
            graph.hashes(),
            types::actor_names(actors@),
        ),
        columns_read_back(op::op_models(ops@), meta@.actor),
        round_trip::countable(
            built_body(
                op::op_models(ops@),
                meta@,
                graph.hashes(),
                fresh_mapper(op::op_models(ops@), meta@.actor, types::actor_names(actors@)),
            ),
        ),
        r@.bytes.len() <= usize::MAX,
        r@.header.checksum.len() == 4,
{
    let mut mapper = ActorMapper::new(actors);
    let r = build_change_inner(ops, meta, graph, &mut mapper);
    proof {
        let models = op::op_models(ops@);
        let fresh = fresh_mapper(models, meta@.actor, types::actor_names(actors@));
        if ops@.len() == 0 {
            mapper::lemma_no_others(models, meta@.actor, actors@.len());
        }
        assert(other_names(mapper@) =~= other_names(fresh));
        assert(r@ == built_change(models, meta@, graph.hashes(), fresh));
    }
    r
}

/// A mapper that knows the actors of a change of `ops`.
pub open spec fn fresh_mapper(ops: Seq<OpModel>, author: nat, actors: Seq<Seq<u8>>) -> MapperModel {
    let others = mapper::others(ops, author, actors.len());
    MapperModel {
        actors,
        seen: Seq::empty(),
        mapping: Seq::empty(),
        others: Seq::new(others.len(), |i: int| others[i] as usize),
    }
}

/// The change of some operations, of which the actors are those that they
/// mention.
pub open spec fn fresh_change(
    ops: Seq<OpModel>,
    meta: MetadataModel,
    hashes: Seq<Seq<u8>>,
    actors: Seq<Seq<u8>>,
) -> ChangeModel {
    built_change(ops, meta, hashes, fresh_mapper(ops, meta.actor, actors))
}

/// The columns of operations stand one behind the other, in order, and end with
/// their bytes.
pub proof fn lemma_op_columns(ops: Seq<OpModel>, author: nat)
    requires
        op_data(ops, author).len() <= usize::MAX,
        columns_read_back(ops, author),
    ensures
        ({
            let cols = op_columns(ops, author).raw_columns();
            &&& storage_columns::contiguous(cols)
            &&& storage_columns::in_normal_order(cols)
            &&& storage_columns::columns_end(cols) == op_data(ops, author).len()
            &&& storage_columns::within(cols, op_data(ops, author).len())
            &&& !storage_columns::compressed(cols)
            &&& cols.len() <= 14
        }),
{
    if ops.len() == 0 {
        columns::lemma_raw_columns(columns::no_columns(), 0);
    } else {
        let parts = columns::column_parts(ops, author);
        columns::lemma_columns_of(parts);
        columns::lemma_raw_columns(columns::columns_of(parts), op_data(ops, author).len());
    }
}

/// What a change is built with shows its parts. The message is empty where there
/// is none.
pub proof fn metadata_is_shown(meta: BuildChangeMetadata<'_>)
    ensures
        meta@.actor == meta.actor && meta@.seq == meta.seq && meta@.max_op == meta.max_op
            && meta@.timestamp == meta.timestamp,
        meta@.deps == meta.deps@,
        meta@.extra == meta.extra@,
        meta.message matches Some(s) ==> meta@.message == Some(s@) && meta@.message_text() == s@,
        meta.message is None ==> meta@.message is None && meta@.message_text().len() == 0,
{
}

} // verus!
