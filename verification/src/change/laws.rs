//! What holds of changes across building, saving and loading.
use super::expand;
use super::import;
use super::{Change, CompressionModel, LoadFault};
use crate::leb;
use crate::legacy::{self, ExpandedModel, IdModel, ObjectModel};
use crate::op_set2::change::mapper::{self, MapperModel};
use crate::op_set2::change::{self as builder, columns, round_trip, GetHash, MetadataModel};
use crate::op_set2::op::OpModel;
use crate::op_set2::types::{KeyModel, ScalarModel};
use crate::storage::change::compressed::{self, CompressedModel};
use crate::storage::change::iter;
use crate::storage::change::{self as stored, ChangeModel, ReadFault, DEFLATE_MIN_SIZE};
use crate::storage::chunk::{self, ChunkError, ChunkModel, ChunkType};
use crate::storage::parse;
use crate::types::{ElemId, ObjId, OpId};
use vstd::prelude::*;

verus! {

/// A message, where it is not empty.
pub open spec fn nonempty(message: Option<Seq<char>>) -> Option<Seq<char>> {
    match message {
        Some(s) => if s.len() == 0 {
            None
        } else {
            Some(s)
        },
        None => None,
    }
}

/// The change is loaded again from its raw bytes, but for an empty message,
/// which is none.
pub open spec fn reloads(change: ChangeModel) -> bool {
    super::loaded(change.bytes) == Ok::<_, LoadFault>(
        (ChangeModel { message: nonempty(change.message), ..change }, None::<CompressedModel>),
    )
}

/// A change that was loaded, compressed or not, is loaded again from its raw
/// bytes.
pub proof fn loaded_change_reloads(bytes: Seq<u8>)
    requires
        super::loaded(bytes) matches Ok((change, _)) && change.bytes.len() <= u64::MAX,
    ensures
        super::loaded(bytes) matches Ok((change, _)) ==> super::loaded(change.bytes) == Ok::<_, LoadFault>(
            (change, None::<CompressedModel>),
        ) && reloads(change),
{
    chunk::lemma_header_parse_size(bytes);
    match chunk::header_parse(bytes) {
        Ok((header, rest)) => {
            let len = (header.size + header.data_len) as int;
            assert(bytes.skip(len).len() == 0);
            assert(bytes.take(len) =~= bytes);
            match header.chunk_type {
                ChunkType::Compressed => {
                    match compressed::inflated(rest.take(header.data_len as int)) {
                        Some(data) => {
                            lemma_change_chunk(header.checksum, data);
                        },
                        None => {},
                    }
                },
                _ => {},
            }
        },
        Err(_) => {},
    }
}

/// The chunk of a change is parsed as that change.
proof fn lemma_change_chunk(checksum: Seq<u8>, data: Seq<u8>)
    requires
        checksum.len() == 4,
        data.len() <= u64::MAX,
    ensures
        chunk::chunk_parse(
            chunk::header_bytes(checksum, ChunkType::Change, data.len()) + data,
        ) == (match chunk::inflated_change_parse(checksum, data) {
            Ok(change) => Ok((ChunkModel::Change(change), Seq::<u8>::empty())),
            Err(e) => Err(ChunkError::Parse(e)),
        }),
{
    let bytes = chunk::header_bytes(checksum, ChunkType::Change, data.len()) + data;
    chunk::header_parse_of_bytes(checksum, ChunkType::Change, data, Seq::empty());
    assert(bytes + Seq::<u8>::empty() =~= bytes);
    assert(data + Seq::<u8>::empty() =~= data);
    assert(bytes.take(bytes.len() as int) =~= bytes);
    assert(bytes.skip(bytes.len() as int) =~= Seq::empty());
}

/// A change that was loaded is loaded again from the bytes that it is saved as,
/// compressed where that is worth it.
pub proof fn loaded_change_reloads_packed(change: ChangeModel)
    requires
        super::loaded(change.bytes) == Ok::<_, LoadFault>((change, None::<CompressedModel>)),
        change.bytes.len() <= u64::MAX,
        super::packed(change).len() <= u64::MAX,
        change.bytes.len() > DEFLATE_MIN_SIZE ==> compressed::inflated(
            compressed::deflated(change.body()),
        ) == Some(change.body()),
    ensures
        super::loaded(super::packed(change)) == Ok::<_, LoadFault>(
            (
                change,
                if change.bytes.len() > DEFLATE_MIN_SIZE {
                    Some(
                        CompressedModel {
                            checksum: change.header.checksum,
                            bytes: super::packed(change),
                        },
                    )
                } else {
                    None
                },
            ),
        ),
{
    if change.bytes.len() > DEFLATE_MIN_SIZE {
        let body = change.body();
        let deflated = compressed::deflated(body);
        let checksum = change.header.checksum;
        chunk::lemma_header_parse_size(change.bytes);
        match chunk::header_parse(change.bytes) {
            Ok((header, rest)) => {
                let len = (header.size + header.data_len) as int;
                assert(change.bytes.skip(len).len() == 0);
                assert(change.bytes.take(len) =~= change.bytes);
                assert(change.header == header);
                assert(rest == body);
                assert(rest.take(header.data_len as int) =~= body);
                assert(chunk::inflated_change_parse(checksum, body) == stored::change_parse(
                    change.bytes,
                    header.size,
                    header,
                ));
            },
            Err(_) => {},
        }
        let bytes = super::packed(change);
        chunk::header_parse_of_bytes(checksum, ChunkType::Compressed, deflated, Seq::empty());
        assert(bytes + Seq::<u8>::empty() =~= bytes);
        assert(deflated + Seq::<u8>::empty() =~= deflated);
        assert(deflated.take(deflated.len() as int) =~= deflated);
        assert(bytes.take(bytes.len() as int) =~= bytes);
        assert(bytes.skip(bytes.len() as int) =~= Seq::empty());
    }
}

/// A loaded change has the bytes that it was loaded of, where these were not
/// compressed; where they were, its compressed form has them.
pub proof fn loaded_change_keeps_bytes(bytes: Seq<u8>)
    ensures
        super::loaded(bytes) matches Ok((change, compressed)) ==> (match compressed {
            Some(c) => c.bytes == bytes && c.checksum == change.header.checksum,
            None => change.bytes == bytes,
        }),
{
    chunk::lemma_header_parse_size(bytes);
    match chunk::header_parse(bytes) {
        Ok((header, rest)) => {
            let len = (header.size + header.data_len) as int;
            if bytes.skip(len).len() == 0 {
                assert(bytes.take(len) =~= bytes);
            }
        },
        Err(_) => {},
    }
}

/// A change that was loaded of its compressed form is saved as the bytes that
/// it was loaded of.
pub proof fn loaded_compressed_is_saved_as_it_was(bytes: Seq<u8>)
    ensures
        super::loaded(bytes) matches Ok((change, Some(c))) ==> super::saved(
            change,
            super::read_compression(Some(c)),
        ).0 == bytes,
{
    loaded_change_keeps_bytes(bytes);
}

/// A change that is saved again is saved as the same bytes.
pub proof fn saved_twice_is_saved_once(change: ChangeModel, known: CompressionModel)
    ensures
        ({
            let (bytes, kept) = super::saved(change, known);
            super::saved(change, kept) == (bytes, kept)
        }),
{
}

/// All operations of a loaded change can be read, and they are as many as it
/// says.
pub proof fn loaded_change_is_readable(bytes: Seq<u8>)
    ensures
        super::loaded(bytes) matches Ok((change, _)) ==> change.ops().1 is None && change.num_ops
            == change.ops().0.len(),
{
    match chunk::chunk_parse(bytes) {
        Ok((ChunkModel::Change(parsed), _)) => {
            assert((ChangeModel { num_ops: parsed.ops().0.len(), ..parsed }).ops()
                == parsed.ops());
        },
        Ok((ChunkModel::CompressedChange(parsed, _), _)) => {
            assert((ChangeModel { num_ops: parsed.ops().0.len(), ..parsed }).ops()
                == parsed.ops());
        },
        _ => {},
    }
}

/// The operations of a loaded change have the counters from its start to its
/// last, and its author is the actor of each.
pub proof fn loaded_ids_run_to_max_op(bytes: Seq<u8>, i: int)
    requires
        super::loaded(bytes) matches Ok((change, _)) && 0 <= i < change.num_ops,
    ensures
        super::loaded(bytes) matches Ok((change, _)) ==> {
            &&& change.ops().0[i].id == (OpId { counter: (change.start_op + i) as u32, actor: 0 })
            &&& change.start_op + i <= u32::MAX
            &&& (i == change.num_ops - 1 ==> change.ops().0[i].id.counter == change.start_op
                + change.num_ops - 1)
        },
{
    loaded_change_is_readable(bytes);
    match super::loaded(bytes) {
        Ok((change, _)) => {
            let start = change.start_op as nat;
            match iter::rows_of(change.columns, change.column_bytes(), start) {
                Ok(rows) => {
                    stored::lemma_no_rows_read(
                        change.columns,
                        change.column_bytes(),
                        start,
                        change.columns.len(),
                    );
                    iter::ids_are_consecutive(rows);
                    assert(change.ops().0[i].id.counter == start + i);
                },
                Err(_) => {},
            }
        },
        Err(_) => {},
    }
}

/// The hash of a loaded change is that of its body.
pub proof fn loaded_hash_is_of_body(bytes: Seq<u8>)
    ensures
        super::loaded(bytes) matches Ok((change, _)) ==> change.header.hash == chunk::chunk_hash(
            ChunkType::Change,
            change.body(),
        ),
{
    chunk::lemma_header_parse_size(bytes);
    match chunk::header_parse(bytes) {
        Ok((header, rest)) => {
            let len = (header.size + header.data_len) as int;
            match header.chunk_type {
                ChunkType::Change => {
                    let whole = bytes.take(len);
                    assert(whole.skip(header.size as int) =~= rest.take(header.data_len as int));
                },
                ChunkType::Compressed => {
                    match compressed::inflated(rest.take(header.data_len as int)) {
                        Some(data) => {
                            let inner = chunk::header_bytes(
                                header.checksum,
                                ChunkType::Change,
                                data.len(),
                            );
                            assert((inner + data).skip(inner.len() as int) =~= data);
                        },
                        None => {},
                    }
                },
                _ => {},
            }
        },
        Err(_) => {},
    }
}

/// The checksum of a built change is valid, and its hash is that of its body.
pub proof fn built_checksum_is_valid(
    ops: Seq<OpModel>,
    meta: MetadataModel,
    hashes: Seq<Seq<u8>>,
    m: MapperModel,
)
    requires
        builder::built_change(ops, meta, hashes, m).bytes.len() <= usize::MAX,
    ensures
        ({
            let change = builder::built_change(ops, meta, hashes, m);
            &&& change.header.checksum == change.header.hash.take(4)
            &&& change.header.hash == chunk::chunk_hash(ChunkType::Change, change.body())
        }),
{
    round_trip::built_body_bytes(ops, meta, hashes, m);
}

/// A change that was built is loaded from its bytes, but for an empty message,
/// which is none.
pub proof fn built_change_loads(
    ops: Seq<OpModel>,
    meta: MetadataModel,
    hashes: Seq<Seq<u8>>,
    m: MapperModel,
)
    requires
        builder::buildable(ops, meta, hashes, m.actors.len()),
        forall|j: int| 0 <= j < ops.len() ==> round_trip::readable(#[trigger] ops[j]),
        builder::first_counter(ops, meta.max_op) + ops.len() <= u32::MAX + 1,
        builder::first_counter(ops, meta.max_op) <= u32::MAX,
        builder::columns_read_back(ops, meta.actor),
        round_trip::countable(builder::built_body(ops, meta, hashes, m)),
        builder::built_change(ops, meta, hashes, m).bytes.len() <= usize::MAX,
        builder::built_change(ops, meta, hashes, m).header.checksum.len() == 4,
    ensures
        ({
            let change = builder::built_change(ops, meta, hashes, m);
            reloads(change) && change.num_ops == ops.len()
        }),
{
    let change = builder::built_change(ops, meta, hashes, m);
    built_change_reparses(ops, meta, hashes, m);
    round_trip::built_ops_read_back(ops, meta, hashes, m);
    let parsed = round_trip::reparsed(change);
    assert(parsed.ops() == change.ops());
    assert(super::verified(parsed) == Ok::<_, ReadFault>(
        ChangeModel { message: nonempty(change.message), ..change },
    ));
}

/// The id of a list element that comes back as it was: one without a counter
/// must be neither by the author nor by the first of the actors, for these read
/// as the head of the list.
pub open spec fn elem_restorable(e: ExpandedModel, id: IdModel) -> bool {
    id.counter >= 1 || (id.actor != e.actor_id && import::index_in(
        import::actors_of(e),
        id.actor,
    ) > 0)
}

/// The ids of a spelled out operation come back as they were: that of its
/// object has a counter, and that of its element is not read as the head of a
/// list.
pub open spec fn ids_restorable(e: ExpandedModel, op: legacy::OpModel) -> bool {
    &&& (op.obj matches ObjectModel::Id(id) ==> id.counter >= 1)
    &&& (op.key matches legacy::KeyModel::Elem(id) ==> elem_restorable(e, id))
}

/// A spelled out operation that comes back as it was: its ids do, and its value
/// has an unambiguous type.
pub open spec fn op_restorable(e: ExpandedModel, op: legacy::OpModel) -> bool {
    &&& ids_restorable(e, op)
    &&& op.action.spec_value().unambiguous()
}

/// A spelled out change that comes back as it was.
pub open spec fn restorable(e: ExpandedModel) -> bool {
    &&& import::importable(e)
    &&& e.start_op <= u32::MAX
    &&& forall|i: int| 0 <= i < e.operations.len() ==> op_restorable(e, #[trigger] e.operations[i])
}

/// A spelled out change of which the operations can be read, once it is
/// imported. That fails only for a value that claims to be of no known type,
/// has the number of one, and is none of that type.
pub open spec fn readable(e: ExpandedModel) -> bool {
    &&& import::importable(e)
    &&& forall|i: int|
        0 <= i < e.operations.len() ==> round_trip::readable(#[trigger] import::import_ops(e)[i])
}

/// A spelled out change without values that claim to be of no known type but
/// have the number of one can be read, once it is imported.
pub proof fn unambiguous_values_are_readable(e: ExpandedModel)
    requires
        import::importable(e),
        forall|i: int|
            0 <= i < e.operations.len() ==> (
            #[trigger] e.operations[i]).action.spec_value().unambiguous(),
    ensures
        readable(e),
{
    let ops = import::import_ops(e);
    assert forall|i: int| 0 <= i < e.operations.len() implies round_trip::readable(
        #[trigger] ops[i],
    ) by {
        assert(import::op_fits(e.operations[i]));
        round_trip::value_reads_back(ops[i]);
    }
}

/// The actor at the index of a name within an imported change has that name.
proof fn lemma_local_name(e: ExpandedModel, name: Seq<u8>)
    requires
        import::importable(e),
        import::actors_of(e).contains(name),
        name == e.actor_id || mapper::mentioned(
            import::import_ops(e),
            import::index_in(import::actors_of(e), name),
        ),
    ensures
        ({
            let a = import::index_in(import::actors_of(e), name);
            let local = mapper::local_index(import::import_ops(e), import::author_of(e), a);
            &&& local < expand::actor_list(import::imported(e)).len()
            &&& local <= u32::MAX
            &&& name != e.actor_id ==> local >= 1
            &&& expand::actor_list(import::imported(e))[local as int] == name
        }),
{
    let ops = import::import_ops(e);
    let actors = import::actors_of(e);
    let author = import::author_of(e);
    let a = import::index_in(actors, name);
    import::lemma_index_in(actors, name);
    import::lemma_author(e);
    mapper::local_index_finds_actor(ops, author, actors.len(), a);
    let local = mapper::local_index(ops, author, a);
    mapper::lemma_others_len(ops, author, actors.len());
    let others = mapper::others(ops, author, actors.len());
    let list = expand::actor_list(import::imported(e));
    if local > 0 {
        mapper::others_are_mentioned(ops, author, actors.len(), local - 1);
        assert(others[local - 1] == a);
        assert(list[local as int] == actors[others[local - 1] as usize as int]);
    } else {
        assert(a == author);
    }
}

/// The actor of an id of an imported operation is mentioned.
proof fn lemma_mentioned_id(e: ExpandedModel, i: int, id: IdModel)
    requires
        import::importable(e),
        0 <= i < e.operations.len(),
        import::actors_of(e).contains(id.actor),
        ({
            let op = import::import_ops(e)[i];
            let imported = import::import_id(id, import::actors_of(e));
            ||| op.obj == ObjId(imported) && op.obj != ObjId::spec_root()
            ||| op.key == KeyModel::Elem(ElemId(imported)) && imported != ElemId::spec_head().0
            ||| exists|j: int| 0 <= j < op.pred.len() && #[trigger] op.pred[j] == imported
        }),
    ensures
        mapper::mentioned(
            import::import_ops(e),
            import::index_in(import::actors_of(e), id.actor),
        ),
        import::import_id(id, import::actors_of(e)).actor == import::index_in(
            import::actors_of(e),
            id.actor,
        ),
{
    let ops = import::import_ops(e);
    let actors = import::actors_of(e);
    let imported = import::import_id(id, actors);
    let a = import::index_in(actors, id.actor);
    import::lemma_index_in(actors, id.actor);
    assert(mapper::mentions(ops[i], a)) by {
        if exists|j: int| 0 <= j < ops[i].pred.len() && #[trigger] ops[i].pred[j] == imported {
            let j = choose|j: int|
                0 <= j < ops[i].pred.len() && #[trigger] ops[i].pred[j] == imported;
            assert(ops[i].pred[j].actor == a);
        }
    }
}

/// The names of the predecessors of an imported operation are found again.
proof fn lemma_local_preds(e: ExpandedModel, i: int)
    requires
        import::importable(e),
        0 <= i < e.operations.len(),
    ensures
        ({
            let local = round_trip::local_op(
                import::import_ops(e),
                import::author_of(e),
                e.start_op as nat,
                i,
            );
            let list = expand::actor_list(import::imported(e));
            let pred = e.operations[i].pred;
            &&& local.pred.len() == pred.len()
            &&& forall|j: int|
                0 <= j < pred.len() ==> expand::expand_id(#[trigger] local.pred[j], list) == pred[j]
                    && local.pred[j].actor < list.len()
        }),
{
    let ops = import::import_ops(e);
    let op = e.operations[i];
    let local = round_trip::local_op(ops, import::author_of(e), e.start_op as nat, i);
    let list = expand::actor_list(import::imported(e));
    assert(import::op_fits(op));
    import::lemma_names_in(op);
    import::lemma_names_known(e, i);
    assert forall|j: int| 0 <= j < op.pred.len() implies expand::expand_id(
        #[trigger] local.pred[j],
        list,
    ) == op.pred[j] && local.pred[j].actor < list.len() by {
        let id = op.pred[j];
        assert(import::id_fits(id));
        assert(import::names_in(op).contains(id.actor));
        assert(ops[i].pred[j] == import::import_id(id, import::actors_of(e)));
        lemma_mentioned_id(e, i, id);
        lemma_local_name(e, id.actor);
    }
}

/// The actors that an imported operation mentions are among those of its
/// change.
proof fn lemma_local_actors_known(e: ExpandedModel, i: int)
    requires
        import::importable(e),
        0 <= i < e.operations.len(),
    ensures
        expand::actors_known(
            round_trip::local_op(
                import::import_ops(e),
                import::author_of(e),
                e.start_op as nat,
                i,
            ),
            expand::actor_list(import::imported(e)).len(),
        ),
{
    let op = e.operations[i];
    let model = import::import_ops(e)[i];
    assert(import::op_fits(op));
    import::lemma_names_in(op);
    import::lemma_names_known(e, i);
    lemma_local_preds(e, i);
    match op.obj {
        ObjectModel::Id(id) => {
            if model.obj.0.counter > 0 {
                lemma_mentioned_id(e, i, id);
                lemma_local_name(e, id.actor);
            }
        },
        ObjectModel::Root => {},
    }
    match op.key {
        legacy::KeyModel::Elem(id) => {
            if model.key != KeyModel::Elem(ElemId::spec_head()) {
                lemma_mentioned_id(e, i, id);
                lemma_local_name(e, id.actor);
            }
        },
        _ => {},
    }
}

/// An operation that was imported is spelled out as it was, but for the value,
/// which is the one that is read.
proof fn lemma_respelled_op(e: ExpandedModel, i: int)
    requires
        import::importable(e),
        0 <= i < e.operations.len(),
        ids_restorable(e, e.operations[i]),
    ensures
        ({
            let local = round_trip::local_op(
                import::import_ops(e),
                import::author_of(e),
                e.start_op as nat,
                i,
            );
            let op = e.operations[i];
            let action = legacy::op_type_of(
                op.action.spec_action(),
                local.value,
                op.action.spec_expand(),
                op.action.spec_mark_name(),
            );
            expand::expand_op(local, expand::actor_list(import::imported(e)))
                == (legacy::OpModel { action, ..op })
        }),
{
    let ops = import::import_ops(e);
    let op = e.operations[i];
    let local = round_trip::local_op(ops, import::author_of(e), e.start_op as nat, i);
    let list = expand::actor_list(import::imported(e));
    assert(import::op_fits(op));
    import::lemma_names_in(op);
    import::lemma_names_known(e, i);
    lemma_local_preds(e, i);
    match op.obj {
        ObjectModel::Id(id) => {
            lemma_mentioned_id(e, i, id);
            lemma_local_name(e, id.actor);
        },
        ObjectModel::Root => {},
    }
    match op.key {
        legacy::KeyModel::Elem(id) => {
            import::lemma_index_in(import::actors_of(e), id.actor);
            lemma_mentioned_id(e, i, id);
            lemma_local_name(e, id.actor);
        },
        _ => {},
    }
    assert(expand::expand_op(local, list).pred =~= op.pred);
}

/// What holds of every change that was imported: its parts can be counted, and
/// its columns hold what was written.
pub open spec fn well_imported(e: ExpandedModel) -> bool {
    let ops = import::import_ops(e);
    let m = builder::fresh_mapper(ops, import::author_of(e), import::actors_of(e));
    &&& e.deps.len() <= usize::MAX
    &&& builder::columns_read_back(ops, import::author_of(e))
    &&& round_trip::countable(builder::built_body(ops, import::import_metadata(e), e.deps, m))
    &&& import::imported(e).bytes.len() <= usize::MAX
    &&& import::imported(e).header.checksum.len() == 4
}

/// `change` has as many operations as `e`, and all of them can be read. Their
/// counters run from its start to its last, its author is the actor of each, and
/// they mention only actors that it lists.
pub open spec fn counted(e: ExpandedModel, change: ChangeModel) -> bool {
    &&& change.start_op == e.start_op
    &&& change.num_ops == e.operations.len()
    &&& change.ops().0.len() == change.num_ops
    &&& change.ops().1 is None
    &&& forall|i: int|
        0 <= i < change.num_ops ==> (#[trigger] change.ops().0[i]).id == (OpId {
            counter: (change.start_op + i) as u32,
            actor: 0,
        }) && change.start_op + i <= u32::MAX
    &&& expand::expandable(change)
    &&& expand::expanded(change).operations.len() == change.num_ops
}

/// The operations of a change that is made of a spelled out one are as many as
/// this has, and can be read.
pub proof fn imported_ops_are_counted(e: ExpandedModel)
    requires
        readable(e),
        well_imported(e),
    ensures
        counted(e, import::imported(e)),
        import::imported(e).ops() == (
            round_trip::local_ops(
                import::import_ops(e),
                import::author_of(e),
                e.start_op as nat,
            ),
            None::<ReadFault>,
        ),
{
    let ops = import::import_ops(e);
    let author = import::author_of(e);
    let meta = import::import_metadata(e);
    let change = import::imported(e);
    let m = builder::fresh_mapper(ops, author, import::actors_of(e));
    import::lemma_import_buildable(e);
    import::lemma_author(e);
    round_trip::built_ops_read_back(ops, meta, e.deps, m);
    let local = round_trip::local_ops(ops, author, e.start_op as nat);
    assert(change.ops() == (local, None::<ReadFault>));
    assert forall|i: int| 0 <= i < local.len() implies expand::actors_known(
        #[trigger] change.ops().0[i],
        1 + change.other_actors.len(),
    ) by {
        lemma_local_actors_known(e, i);
    }
    assert forall|i: int| 0 <= i < change.num_ops implies (#[trigger] change.ops().0[i]).id == (OpId {
        counter: (change.start_op + i) as u32,
        actor: 0,
    }) && change.start_op + i <= u32::MAX by {
        assert(local[i].id.counter == (e.start_op + i) as u32);
    }
}

/// A change that is made of a spelled out one is loaded from its bytes, but for
/// an empty message, which is none.
pub proof fn imported_change_reloads(e: ExpandedModel)
    requires
        readable(e),
        e.start_op <= u32::MAX,
        well_imported(e),
    ensures
        reloads(import::imported(e)),
{
    let ops = import::import_ops(e);
    let meta = import::import_metadata(e);
    let m = builder::fresh_mapper(ops, import::author_of(e), import::actors_of(e));
    import::lemma_import_buildable(e);
    import::lemma_author(e);
    built_change_loads(ops, meta, e.deps, m);
}

/// The raw bytes of the change are parsed as that change, but for an empty
/// message, which is none. No operation has been read then.
pub open spec fn reparses(change: ChangeModel) -> bool {
    chunk::chunk_parse(change.bytes) == Ok::<_, ChunkError>(
        (
            ChunkModel::Change(
                ChangeModel { message: nonempty(change.message), num_ops: 0, ..change },
            ),
            Seq::<u8>::empty(),
        ),
    )
}

/// What is loaded again from its raw bytes is parsed from them.
pub proof fn what_reloads_reparses(change: ChangeModel)
    requires
        reloads(change),
    ensures
        reparses(change),
{
    match chunk::chunk_parse(change.bytes) {
        Ok((ChunkModel::Change(_), rest)) => assert(rest =~= Seq::empty()),
        _ => {},
    }
}

/// A change that was built is parsed from its bytes, whether its operations can
/// be read or not.
pub proof fn built_change_reparses(
    ops: Seq<OpModel>,
    meta: MetadataModel,
    hashes: Seq<Seq<u8>>,
    m: MapperModel,
)
    requires
        builder::buildable(ops, meta, hashes, m.actors.len()),
        builder::columns_read_back(ops, meta.actor),
        round_trip::countable(builder::built_body(ops, meta, hashes, m)),
        builder::built_change(ops, meta, hashes, m).bytes.len() <= usize::MAX,
        builder::built_change(ops, meta, hashes, m).header.checksum.len() == 4,
    ensures
        reparses(builder::built_change(ops, meta, hashes, m)),
{
    let change = builder::built_change(ops, meta, hashes, m);
    let data = builder::built_data(ops, meta, hashes, m);
    round_trip::built_change_parses(ops, meta, hashes, m);
    lemma_change_chunk(change.header.checksum, data);
    assert(chunk::inflated_change_parse(change.header.checksum, data) == stored::change_parse(
        change.bytes,
        change.header.size,
        change.header,
    ));
}

/// A change that is made of a spelled out one is parsed from its bytes, whether
/// its operations can be read or not.
pub proof fn imported_change_reparses(e: ExpandedModel)
    requires
        import::importable(e),
        well_imported(e),
    ensures
        reparses(import::imported(e)),
{
    let ops = import::import_ops(e);
    let m = builder::fresh_mapper(ops, import::author_of(e), import::actors_of(e));
    import::lemma_import_buildable(e);
    import::lemma_author(e);
    built_change_reparses(ops, import::import_metadata(e), e.deps, m);
}

/// Changes with the same raw bytes hold the same operations, and are the same
/// but for the message where one has an empty one and the other none, and for
/// the number of operations where not all of these can be read.
pub proof fn equal_bytes_mean_equal_changes(a: ChangeModel, b: ChangeModel)
    requires
        reparses(a),
        reparses(b),
        a.bytes == b.bytes,
    ensures
        a == (ChangeModel { message: a.message, num_ops: a.num_ops, ..b }),
        nonempty(a.message) == nonempty(b.message),
        a.ops() == b.ops(),
{
}

/// `change` is spelled out as `e`, with its hash, and what is spelled out makes
/// the same change again. It is loaded from its bytes and then spelled out as
/// `e` too, but for an empty message, which is none.
pub open spec fn restored(e: ExpandedModel, change: ChangeModel) -> bool {
    let hash = Some(change.header.hash);
    let message = nonempty(e.message);
    let reloaded = ChangeModel { message, ..change };
    &&& expand::expandable(change)
    &&& expand::expanded(change) == (ExpandedModel { hash, ..e })
    &&& import::imported(expand::expanded(change)) == change
    &&& super::loaded(change.bytes) == Ok::<_, LoadFault>((reloaded, None::<CompressedModel>))
    &&& expand::expandable(reloaded)
    &&& expand::expanded(reloaded) == (ExpandedModel { hash, message, ..e })
}

/// A change that is made of a spelled out one gives it back, spelled out again
/// or saved, loaded and spelled out.
pub proof fn imported_change_is_restored(e: ExpandedModel)
    requires
        restorable(e),
        well_imported(e),
    ensures
        restored(e, import::imported(e)),
{
    let ops = import::import_ops(e);
    let author = import::author_of(e);
    let meta = import::import_metadata(e);
    let change = import::imported(e);
    let m = builder::fresh_mapper(ops, author, import::actors_of(e));
    import::lemma_author(e);
    assert forall|i: int| 0 <= i < e.operations.len() implies (
    #[trigger] e.operations[i]).action.spec_value().unambiguous() by {
        assert(op_restorable(e, e.operations[i]));
    }
    unambiguous_values_are_readable(e);
    imported_ops_are_counted(e);
    imported_change_reloads(e);
    round_trip::built_extra(ops, meta, e.deps, m);
    let local = round_trip::local_ops(ops, author, e.start_op as nat);
    let list = expand::actor_list(change);
    assert forall|i: int| 0 <= i < local.len() implies expand::expand_op(
        #[trigger] local[i],
        list,
    ) == e.operations[i] by {
        assert(op_restorable(e, e.operations[i]));
        assert(import::op_fits(e.operations[i]));
        lemma_respelled_op(e, i);
        round_trip::value_reads_back(ops[i]);
        legacy::op_type_of_parts(e.operations[i].action);
    }
    assert(expand::expand_ops(local, list) =~= e.operations);
    assert(change.dependencies =~= e.deps);
    let reloaded = ChangeModel { message: nonempty(e.message), ..change };
    assert(reloaded.ops() == change.ops());
    assert(expand::actor_list(reloaded) == list);
    assert(reloaded.extra() == change.extra());
    import_ignores_hash(e, Some(change.header.hash));
}

/// A spelled out change that makes the same change again once it was imported
/// and spelled out: its operations can be read, their ids come back as they
/// were, and their values are written as they were.
pub open spec fn reimportable(e: ExpandedModel) -> bool {
    &&& readable(e)
    &&& forall|i: int|
        0 <= i < e.operations.len() ==> ids_restorable(e, #[trigger] e.operations[i])
    &&& forall|i: int|
        0 <= i < e.operations.len() ==> round_trip::value_kept(
            #[trigger] import::import_ops(e)[i],
        )
}

/// `change` can be spelled out, and what is spelled out makes it again.
pub open spec fn reimported(change: ChangeModel) -> bool {
    &&& expand::expandable(change)
    &&& import::importable(expand::expanded(change))
    &&& import::imported(expand::expanded(change)) == change
}

/// An operation that was spelled out again mentions the same actors, and is
/// written as it was.
proof fn lemma_respelled_alike(e: ExpandedModel, i: int)
    requires
        reimportable(e),
        0 <= i < e.operations.len(),
    ensures
        ({
            let local = round_trip::local_op(
                import::import_ops(e),
                import::author_of(e),
                e.start_op as nat,
                i,
            );
            let again = expand::expand_op(local, expand::actor_list(import::imported(e)));
            let op = e.operations[i];
            &&& import::names_in(again) == import::names_in(op)
            &&& import::op_fits(again)
            &&& again == (legacy::OpModel { action: again.action, ..op })
            &&& again.action.spec_action() == op.action.spec_action()
            &&& again.action.spec_expand() == op.action.spec_expand()
            &&& again.action.spec_mark_name() == op.action.spec_mark_name()
            &&& again.action.spec_value().raw() == op.action.spec_value().raw()
            &&& again.action.spec_value().value_type().spec_code()
                == op.action.spec_value().value_type().spec_code()
        }),
{
    let ops = import::import_ops(e);
    let op = e.operations[i];
    assert(ids_restorable(e, op));
    assert(round_trip::value_kept(ops[i]));
    assert(import::op_fits(op));
    lemma_respelled_op(e, i);
    if op.action.spec_value().unambiguous() {
        round_trip::value_reads_back(ops[i]);
        legacy::op_type_of_parts(op.action);
    }
}

/// The names that two lists of operations mention are the same where those of
/// each operation are.
proof fn lemma_gathered_alike(
    list: Seq<Seq<u8>>,
    a: Seq<legacy::OpModel>,
    b: Seq<legacy::OpModel>,
    k: nat,
)
    requires
        k <= a.len(),
        k <= b.len(),
        forall|i: int| 0 <= i < k ==> import::names_in(#[trigger] a[i]) == import::names_in(b[i]),
    ensures
        import::gathered(list, a, k) == import::gathered(list, b, k),
    decreases k,
{
    if k > 0 {
        lemma_gathered_alike(list, a, b, (k - 1) as nat);
        assert(import::names_in(a[k - 1]) == import::names_in(b[k - 1]));
    }
}

/// A change that is made of a spelled out one, spelled out and made again, is
/// the same, down to its bytes and its hash.
pub proof fn imported_change_is_reimported(e: ExpandedModel)
    requires
        reimportable(e),
        well_imported(e),
    ensures
        reimported(import::imported(e)),
{
    let ops = import::import_ops(e);
    let author = import::author_of(e);
    let meta = import::import_metadata(e);
    let change = import::imported(e);
    let d = expand::expanded(change);
    let m = builder::fresh_mapper(ops, author, import::actors_of(e));
    import::lemma_author(e);
    imported_ops_are_counted(e);
    round_trip::built_extra(ops, meta, e.deps, m);
    assert(change.dependencies =~= e.deps);
    assert forall|i: int| 0 <= i < e.operations.len() implies import::names_in(
        #[trigger] d.operations[i],
    ) == import::names_in(e.operations[i]) by {
        lemma_respelled_alike(e, i);
    }
    lemma_gathered_alike(seq![e.actor_id], d.operations, e.operations, e.operations.len());
    assert(import::actors_of(d) == import::actors_of(e));
    let again = import::import_ops(d);
    assert forall|i: int| 0 <= i < again.len() implies {
        &&& #[trigger] again[i] == (OpModel { value: again[i].value, ..ops[i] })
        &&& again[i].value.raw() == ops[i].value.raw()
        &&& again[i].value.value_type().spec_code() == ops[i].value.value_type().spec_code()
    } by {
        lemma_respelled_alike(e, i);
        assert(again[i].pred =~= ops[i].pred);
    }
    assert(round_trip::written_alike(again, ops));
    round_trip::alike_operations_make_one_change(again, ops, meta, e.deps, import::actors_of(e));
    round_trip::lemma_lists_alike(again, ops, 0);
    assert(import::import_metadata(d) == meta);
    assert forall|i: int| 0 <= i < d.operations.len() implies import::op_fits(
        #[trigger] d.operations[i],
    ) by {
        lemma_respelled_alike(e, i);
    }
}

/// A change that is made of a spelled out one does not depend on the hash that
/// this holds.
pub proof fn import_ignores_hash(e: ExpandedModel, hash: Option<Seq<u8>>)
    ensures
        import::imported(ExpandedModel { hash, ..e }) == import::imported(e),
        import::importable(ExpandedModel { hash, ..e }) == import::importable(e),
{
    let f = ExpandedModel { hash, ..e };
    assert(import::import_ops(f) =~= import::import_ops(e));
    assert(import::import_metadata(f) == import::import_metadata(e));
}

/// The other actors of an imported change are in order, each once, and the
/// author is none of them.
pub proof fn imported_actors_are_sorted(e: ExpandedModel)
    requires
        import::importable(e),
    ensures
        import::in_order(import::imported(e).other_actors),
        !import::imported(e).other_actors.contains(e.actor_id),
{
    let ops = import::import_ops(e);
    let actors = import::actors_of(e);
    let author = import::author_of(e);
    let others = mapper::others(ops, author, actors.len());
    let names = import::imported(e).other_actors;
    import::actors_are_sorted(e);
    import::lemma_author(e);
    assert forall|i: int| 0 <= i < names.len() implies #[trigger] names[i]
        == actors[others[i] as int] && others[i] < actors.len() && others[i] != author by {
        mapper::others_are_mentioned(ops, author, actors.len(), i);
    }
    assert forall|i: int, j: int| 0 <= i < j < names.len() implies import::lex_less(
        #[trigger] names[i],
        #[trigger] names[j],
    ) by {
        mapper::others_are_increasing(ops, author, actors.len(), i, j);
        assert(names[i] == actors[others[i] as int] && names[j] == actors[others[j] as int]);
        assert(import::lex_less(actors[others[i] as int], actors[others[j] as int]));
    }
    if names.contains(e.actor_id) {
        let i = choose|i: int| 0 <= i < names.len() && names[i] == e.actor_id;
        let a = others[i] as int;
        assert(names[i] == actors[a]);
        if a < author {
            assert(import::lex_less(actors[a], actors[author as int]));
        } else {
            assert(import::lex_less(actors[author as int], actors[a]));
        }
        import::lemma_lex_irreflexive(e.actor_id);
    }
}

/// Of two other actors of an imported change, the one that stands before is a
/// proper front of the other or has the smaller byte where they first differ.
pub proof fn imported_actors_are_in_byte_order(e: ExpandedModel, i: int, j: int)
    requires
        import::importable(e),
        0 <= i < j < import::imported(e).other_actors.len(),
    ensures
        ({
            let a = import::imported(e).other_actors[i];
            let b = import::imported(e).other_actors[j];
            exists|k: int|
                0 <= k <= a.len() && k < b.len() && #[trigger] a.take(k) == b.take(k) && (k
                    == a.len() || a[k] < b[k])
        }),
{
    imported_actors_are_sorted(e);
    let names = import::imported(e).other_actors;
    assert(import::lex_less(names[i], names[j]));
    import::names_differ_first_where(names[i], names[j]);
}

/// The bytes of a change start with a header of fixed bytes, the checksum, the
/// number 1 and the length of the body. The hash is that of the number 1, the
/// length of the body and all of the body.
pub proof fn the_hash_is_of_all_bytes_behind_the_header(change: ChangeModel)
    requires
        reparses(change),
    ensures
        ({
            let body = change.bytes.skip(change.header.size as int);
            let len = leb::uleb_bytes(body.len());
            &&& change.bytes == seq![0x85u8, 0x6f, 0x4a, 0x83] + change.header.checksum + seq![1u8]
                + len + body
            &&& change.header.checksum.len() == 4
            &&& change.header.size == 9 + len.len()
            &&& change.header.hash == chunk::sha256(seq![1u8] + len + body)
        }),
{
    let s = change.bytes;
    chunk::headers_are_laid_out_so(s);
    chunk::lemma_header_parse_size(s);
    match chunk::header_parse(s) {
        Ok((h, rest)) => {
            let len = (h.size + h.data_len) as int;
            assert(s.skip(len).len() == 0);
            assert(s.take(len) =~= s);
            assert(change.header == h);
            assert(rest.take(h.data_len as int) =~= rest);
            assert(s.skip(h.size as int) == rest);
            assert(s =~= seq![0x85u8, 0x6f, 0x4a, 0x83] + h.checksum + seq![1u8]
                + leb::uleb_bytes(rest.len()) + rest);
        },
        Err(_) => {},
    }
}

/// Changes that compare equal have the same bytes and so hold the same
/// operations; changes with other bytes do not compare equal.
pub proof fn equal_changes_hold_the_same(a: &Change, b: &Change)
    ensures
        vstd::std_specs::cmp::PartialEqSpec::eq_spec(a, b) ==> a@.bytes == b@.bytes && a@.num_ops
            == b@.num_ops,
        a@.bytes == b@.bytes && a@.num_ops == b@.num_ops && a.compression() == b.compression()
            ==> vstd::std_specs::cmp::PartialEqSpec::eq_spec(a, b),
        vstd::std_specs::cmp::PartialEqSpec::eq_spec(a, b) && reparses(a@) && reparses(b@)
            ==> a@.ops() == b@.ops() && a@.header.hash == b@.header.hash,
{
    if a@.bytes == b@.bytes && reparses(a@) && reparses(b@) {
        equal_bytes_mean_equal_changes(a@, b@);
    }
}

/// A list of changes gives the hash of each change at its place.
pub proof fn hashes_of_changes_stand_at_their_places(changes: Vec<Change>, i: int)
    requires
        0 <= i < changes@.len(),
    ensures
        changes.hashes().len() == changes@.len(),
        changes.hashes()[i] == changes@[i]@.header.hash,
{
}

/// A list of hashes gives each hash at its place.
pub proof fn hashes_stand_at_their_places(hashes: &[crate::types::ChangeHash], i: int)
    requires
        0 <= i < hashes@.len(),
    ensures
        hashes.hashes().len() == hashes@.len(),
        hashes.hashes()[i] == hashes@[i].0@,
{
}

/// What a change was built with is what it says of itself.
pub proof fn built_change_says_what_it_was_built_of(
    ops: Seq<OpModel>,
    meta: MetadataModel,
    hashes: Seq<Seq<u8>>,
    m: MapperModel,
    i: int,
)
    ensures
        ({
            let change = builder::built_change(ops, meta, hashes, m);
            &&& change.actor == m.actors[meta.actor as int]
            &&& change.seq == meta.seq
            &&& change.timestamp == meta.timestamp
            &&& change.message == meta.message
            &&& change.num_ops == ops.len()
            &&& ops.len() > 0 ==> change.start_op == ops[0].id.counter
            &&& ops.len() == 0 && meta.max_op < u64::MAX ==> change.start_op == meta.max_op + 1
            &&& change.dependencies.len() == meta.deps.len()
            &&& 0 <= i < meta.deps.len() ==> change.dependencies[i] == hashes[meta.deps[i] as int]
            &&& change.other_actors.len() == m.others.len()
            &&& 0 <= i < m.others.len() ==> change.other_actors[i] == m.actors[m.others[i] as int]
        }),
{
}

/// The bytes that a change is saved as: its raw bytes up to a length of 256, and
/// above that the fixed bytes, its checksum, the number 2, and its compressed
/// body behind its length. What is known of the compressed form comes first.
pub proof fn changes_are_saved_so(change: ChangeModel, known: CompressionModel)
    ensures
        ({
            let body = change.bytes.skip(change.header.size as int);
            let saved = super::saved(change, known).0;
            match known {
                CompressionModel::Compressed(c) => saved == c.bytes,
                CompressionModel::TooSmallToCompress => saved == change.bytes,
                CompressionModel::NotCompressed => if change.bytes.len() <= 256 {
                    saved == change.bytes
                } else {
                    saved == seq![0x85u8, 0x6f, 0x4a, 0x83] + change.header.checksum + seq![2u8]
                        + leb::uleb_bytes(compressed::deflated(body).len())
                        + compressed::deflated(body)
                },
            }
        }),
{
}

/// The actor at an actor's index within a change that was built is that actor.
proof fn lemma_local_actor(ops: Seq<OpModel>, author: nat, actors: Seq<Seq<u8>>, a: nat)
    requires
        author < actors.len() <= u32::MAX,
        a < actors.len(),
        mapper::mentioned(ops, a) || a == author,
    ensures
        ({
            let others = builder::other_names(builder::fresh_mapper(ops, author, actors));
            let names = seq![actors[author as int]] + others;
            let local = mapper::local_index(ops, author, a);
            &&& local < names.len()
            &&& local <= u32::MAX
            &&& names[local as int] == actors[a as int]
        }),
{
    mapper::local_index_finds_actor(ops, author, actors.len(), a);
    mapper::lemma_others_len(ops, author, actors.len());
    let local = mapper::local_index(ops, author, a);
    let others = mapper::others(ops, author, actors.len());
    if local > 0 {
        assert((seq![author] + others)[local as int] == others[local - 1]);
    }
}

/// `read` has the counter `counter`, and its actor is the one with a given name.
pub open spec fn is_id_of(read: OpId, names: Seq<Seq<u8>>, counter: int, name: Seq<u8>) -> bool {
    &&& read.counter == counter
    &&& 0 <= read.actor < names.len()
    &&& names[read.actor as int] == name
}

/// The operations of a change that was built are those that it was built of, in
/// their order. Each names the same actors, now by their places among the author
/// and the others, and its id is that of its place.
pub proof fn built_operations_are_those(
    ops: Seq<OpModel>,
    meta: MetadataModel,
    hashes: Seq<Seq<u8>>,
    actors: Seq<Seq<u8>>,
    i: int,
)
    requires
        builder::buildable(ops, meta, hashes, actors.len()),
        builder::columns_read_back(ops, meta.actor),
        forall|j: int| 0 <= j < ops.len() ==> round_trip::readable(#[trigger] ops[j]),
        ops.len() > 0 ==> ops[0].id.counter + ops.len() <= u32::MAX + 1,
        builder::fresh_change(ops, meta, hashes, actors).bytes.len() <= usize::MAX,
        0 <= i < ops.len(),
    ensures
        ({
            let change = builder::fresh_change(ops, meta, hashes, actors);
            let names = seq![change.actor] + change.other_actors;
            let op = ops[i];
            let read = change.ops().0[i];
            &&& change.ops().0.len() == ops.len() && change.ops().1 is None
            &&& read.id.counter == change.start_op + i && read.id.actor == 0
            &&& read.action == op.action && read.insert == op.insert
            &&& read.expand == op.expand && read.mark_name == op.mark_name
            &&& op.obj.0.counter == 0 ==> read.obj.0.counter == 0 && read.obj.0.actor == 0
            &&& op.obj.0.counter > 0 ==> is_id_of(
                read.obj.0,
                names,
                op.obj.0.counter as int,
                actors[op.obj.0.actor as int],
            )
            &&& op.key matches KeyModel::Prop(s) ==> read.key == KeyModel::Prop(s)
            &&& op.key matches KeyModel::Elem(e) ==> (read.key matches KeyModel::Elem(f) && if e.0.counter
                == 0 && e.0.actor == 0 {
                f.0.counter == 0 && f.0.actor == 0
            } else {
                is_id_of(f.0, names, e.0.counter as int, actors[e.0.actor as int])
            })
            &&& read.pred.len() == op.pred.len()
            &&& forall|j: int|
                0 <= j < op.pred.len() ==> is_id_of(
                    #[trigger] read.pred[j],
                    names,
                    op.pred[j].counter as int,
                    actors[op.pred[j].actor as int],
                )
            &&& op.value.unambiguous() ==> read.value == op.value
        }),
{
    let author = meta.actor;
    let m = builder::fresh_mapper(ops, author, actors);
    let change = builder::fresh_change(ops, meta, hashes, actors);
    let names = seq![change.actor] + change.other_actors;
    let op = ops[i];
    round_trip::built_ops_read_back(ops, meta, hashes, m);
    let read = change.ops().0[i];
    assert(round_trip::readable(op));
    assert(read == round_trip::local_op(ops, author, change.start_op as nat, i));
    assert(change.start_op + i <= u32::MAX);
    assert(names =~= seq![actors[author as int]] + builder::other_names(m));
    if op.obj.0.counter > 0 {
        let a = op.obj.0.actor as nat;
        assert(mapper::mentions(op, a));
        assert(mapper::mentioned(ops, a));
        lemma_local_actor(ops, author, actors, a);
    }
    match op.key {
        KeyModel::Elem(e) => {
            if !(e.0.counter == 0 && e.0.actor == 0) {
                let a = e.0.actor as nat;
                assert(mapper::mentions(op, a));
                assert(mapper::mentioned(ops, a));
                lemma_local_actor(ops, author, actors, a);
            }
        },
        _ => {},
    }
    assert forall|j: int| 0 <= j < op.pred.len() implies is_id_of(
        #[trigger] read.pred[j],
        names,
        op.pred[j].counter as int,
        actors[op.pred[j].actor as int],
    ) by {
        let a = op.pred[j].actor as nat;
        assert(mapper::mentions(op, a));
        assert(mapper::mentioned(ops, a));
        lemma_local_actor(ops, author, actors, a);
    }
    if op.value.unambiguous() {
        round_trip::value_reads_back(op);
    }
}

/// A change that is made of a spelled out one has what this says besides the
/// operations.
pub proof fn imported_change_says_what_it_was_made_of(e: ExpandedModel)
    requires
        import::importable(e),
        e.deps.len() <= usize::MAX,
        import::imported(e).bytes.len() <= usize::MAX,
    ensures
        ({
            let change = import::imported(e);
            &&& change.actor == e.actor_id
            &&& change.seq == e.seq
            &&& change.start_op == e.start_op
            &&& change.timestamp == e.time
            &&& change.message == e.message
            &&& change.dependencies == e.deps
            &&& change.num_ops == e.operations.len()
            &&& change.bytes.subrange(
                change.bytes.len() - e.extra_bytes.len(),
                change.bytes.len() as int,
            ) == e.extra_bytes
        }),
{
    let ops = import::import_ops(e);
    let meta = import::import_metadata(e);
    let change = import::imported(e);
    let m = builder::fresh_mapper(ops, import::author_of(e), import::actors_of(e));
    import::lemma_author(e);
    round_trip::built_extra(ops, meta, e.deps, m);
    assert(change.dependencies =~= e.deps);
    assert(change.bytes.subrange(
        change.bytes.len() - e.extra_bytes.len(),
        change.bytes.len() as int,
    ) =~= change.bytes.skip(change.bytes.len() - e.extra_bytes.len()));
}

/// An operation that is read does what the spelled out one says.
pub open spec fn does(read: OpModel, action: legacy::OpTypeModel) -> bool {
    match action {
        legacy::OpTypeModel::Make(t) => read.action.spec_code() == match t {
            legacy::ObjType::Mapping => 0u64,
            legacy::ObjType::List => 2u64,
            legacy::ObjType::Text => 4u64,
            legacy::ObjType::Table => 6u64,
        },
        legacy::OpTypeModel::Put(v) => read.action.spec_code() == 1 && (v.unambiguous()
            ==> read.value == v),
        legacy::OpTypeModel::Delete => read.action.spec_code() == 3,
        legacy::OpTypeModel::Increment(n) => read.action.spec_code() == 5 && read.value
            == crate::op_set2::types::ScalarModel::Int(n),
        legacy::OpTypeModel::MarkBegin { name, value, expand } => read.action.spec_code() == 7
            && read.mark_name == Some(name) && read.expand == expand && (value.unambiguous()
            ==> read.value == value),
        legacy::OpTypeModel::MarkEnd(expand) => read.action.spec_code() == 7 && read.mark_name
            is None && read.expand == expand,
    }
}

/// The operations of a change that is made of a spelled out one are those that
/// this says, in their order: each does the same to the same, names the same
/// actors, and its id is that of its place.
pub proof fn imported_operations_are_those(e: ExpandedModel, i: int)
    requires
        readable(e),
        well_imported(e),
        0 <= i < e.operations.len(),
    ensures
        ({
            let change = import::imported(e);
            let names = seq![change.actor] + change.other_actors;
            let op = e.operations[i];
            let read = change.ops().0[i];
            &&& change.ops().0.len() == e.operations.len()
            &&& read.id.counter == e.start_op + i && read.id.actor == 0
            &&& read.insert == op.insert
            &&& does(read, op.action)
            &&& op.obj is Root ==> read.obj.0.counter == 0 && read.obj.0.actor == 0
            &&& op.obj matches ObjectModel::Id(id) ==> id.counter > 0 ==> is_id_of(
                read.obj.0,
                names,
                id.counter as int,
                id.actor,
            )
            &&& op.key matches legacy::KeyModel::Prop(s) ==> read.key == KeyModel::Prop(s)
            &&& op.key is Head ==> (read.key matches KeyModel::Elem(f) && f.0.counter == 0
                && f.0.actor == 0)
            &&& op.key matches legacy::KeyModel::Elem(id) ==> id.counter > 0 ==> (
            read.key matches KeyModel::Elem(f) && is_id_of(f.0, names, id.counter as int, id.actor))
            &&& read.pred.len() == op.pred.len()
            &&& forall|j: int|
                0 <= j < op.pred.len() ==> is_id_of(
                    #[trigger] read.pred[j],
                    names,
                    op.pred[j].counter as int,
                    op.pred[j].actor,
                )
        }),
{
    let change = import::imported(e);
    let names = seq![change.actor] + change.other_actors;
    let op = e.operations[i];
    let ops = import::import_ops(e);
    imported_ops_are_counted(e);
    let read = change.ops().0[i];
    assert(read == round_trip::local_op(ops, import::author_of(e), e.start_op as nat, i));
    assert(import::op_fits(op));
    import::lemma_names_in(op);
    import::lemma_names_known(e, i);
    lemma_local_preds(e, i);
    match op.obj {
        ObjectModel::Id(id) => {
            if id.counter > 0 {
                lemma_mentioned_id(e, i, id);
                lemma_local_name(e, id.actor);
            }
        },
        ObjectModel::Root => {},
    }
    match op.key {
        legacy::KeyModel::Elem(id) => {
            if id.counter > 0 {
                lemma_mentioned_id(e, i, id);
                lemma_local_name(e, id.actor);
            }
        },
        _ => {},
    }
    assert forall|j: int| 0 <= j < op.pred.len() implies is_id_of(
        #[trigger] read.pred[j],
        names,
        op.pred[j].counter as int,
        op.pred[j].actor,
    ) by {
        assert(expand::expand_id(read.pred[j], names) == op.pred[j]);
    }
    if op.action.spec_value().unambiguous() {
        round_trip::value_reads_back(ops[i]);
    }
}

/// A change is spelled out as what it says, operation by operation: each does
/// the same to the same, and the actors are named.
pub proof fn changes_are_spelled_out_so(change: ChangeModel, i: int)
    ensures
        ({
            let names = seq![change.actor] + change.other_actors;
            let e = expand::expanded(change);
            let read = change.ops().0[i];
            let op = e.operations[i];
            &&& e.actor_id == change.actor && e.seq == change.seq && e.start_op == change.start_op
            &&& e.time == change.timestamp && e.message == change.message
            &&& e.deps == change.dependencies && e.hash == Some(change.header.hash)
            &&& e.extra_bytes == change.bytes.subrange(
                change.extra_bytes.start as int,
                change.extra_bytes.end as int,
            )
            &&& e.operations.len() == change.ops().0.len()
            &&& 0 <= i < e.operations.len() ==> {
                &&& op.insert == read.insert
                &&& read.action is Increment ==> read.value is Int || read.value is Uint
                &&& !(read.action is Increment) ==> does(read, op.action)
                &&& read.action is Increment ==> (op.action matches legacy::OpTypeModel::Increment(n)
                    && (read.value matches crate::op_set2::types::ScalarModel::Int(m) ==> n == m)
                    && (read.value matches crate::op_set2::types::ScalarModel::Uint(m) ==> m
                    <= i64::MAX ==> n == m))
                &&& read.action.spec_code() == 1 ==> op.action == legacy::OpTypeModel::Put(
                    read.value,
                )
                &&& read.obj.0.counter == 0 && read.obj.0.actor == 0 <==> op.obj is Root
                &&& op.obj matches ObjectModel::Id(id) ==> id.counter == read.obj.0.counter
                    && id.actor == names[read.obj.0.actor as int]
                &&& read.key matches KeyModel::Prop(s) ==> op.key == legacy::KeyModel::Prop(s)
                &&& read.key matches KeyModel::Elem(f) ==> if f.0.counter == 0 && f.0.actor == 0 {
                    op.key is Head
                } else {
                    op.key matches legacy::KeyModel::Elem(id) && id.counter == f.0.counter
                        && id.actor == names[f.0.actor as int]
                }
                &&& op.pred.len() == read.pred.len()
                &&& forall|j: int|
                    0 <= j < read.pred.len() ==> (#[trigger] op.pred[j]).counter
                        == read.pred[j].counter && op.pred[j].actor
                        == names[read.pred[j].actor as int]
            }
        }),
{
    if 0 <= i < change.ops().0.len() {
        match iter::rows_of(change.columns, change.column_bytes(), change.start_op as nat) {
            Ok(rows) => iter::read_operations_are_allowed(rows),
            Err(_) => {},
        }
    }
}

/// Bytes are loaded where they are one chunk of a change, compressed or not,
/// without anything behind it, of which all operations can be read and whose
/// first counter fits in 32 bits. Nothing of it changes but that its operations
/// are counted then.
pub proof fn bytes_are_loaded_so(bytes: Seq<u8>)
    ensures
        match (super::loaded(bytes), chunk::chunk_parse(bytes)) {
            (loaded, Err(e)) => loaded == Err::<
                (ChangeModel, Option<CompressedModel>),
                LoadFault,
            >(LoadFault::Chunk(e)),
            (loaded, Ok((chunk, rest))) => if rest.len() > 0 {
                loaded == Err::<(ChangeModel, Option<CompressedModel>), LoadFault>(
                    LoadFault::LeftoverData,
                )
            } else if chunk is Other {
                loaded == Err::<(ChangeModel, Option<CompressedModel>), LoadFault>(
                    LoadFault::WrongChunkType,
                )
            } else {
                let (parsed, compressed) = if chunk is Change {
                    (chunk->Change_0, None)
                } else {
                    (chunk->CompressedChange_0, Some(chunk->CompressedChange_1))
                };
                let (ops, fault) = parsed.ops();
                match fault {
                    Some(e) => loaded == Err::<(ChangeModel, Option<CompressedModel>), LoadFault>(
                        LoadFault::Op(e),
                    ),
                    None => if parsed.start_op >= 0x1_0000_0000 {
                        loaded == Err::<(ChangeModel, Option<CompressedModel>), LoadFault>(
                            LoadFault::Op(ReadFault::CounterTooLarge),
                        )
                    } else {
                        loaded matches Ok((change, form)) && form == compressed
                            && change.num_ops == ops.len() && change == (ChangeModel {
                            num_ops: change.num_ops,
                            ..parsed
                        })
                    },
                }
            },
        },
{
}

/// The other actors of an imported change are named by its operations, and every
/// actor but the author that an operation names by an id with a counter, or as
/// one of its predecessors, is one of them.
pub proof fn imported_actors_are_those_that_are_named(e: ExpandedModel, x: Seq<u8>, i: int, j: int)
    requires
        import::importable(e),
    ensures
        import::imported(e).other_actors.contains(x) ==> x != e.actor_id && exists|k: int|
            0 <= k < e.operations.len() && names(#[trigger] e.operations[k], x),
        ({
            let op = e.operations[i];
            &&& 0 <= i < e.operations.len()
            &&& x != e.actor_id
            &&& {
                ||| op.obj matches ObjectModel::Id(id) && id.actor == x && id.counter >= 1
                ||| op.key matches legacy::KeyModel::Elem(id) && id.actor == x && id.counter >= 1
                ||| 0 <= j < op.pred.len() && op.pred[j].actor == x
            }
        }) ==> import::imported(e).other_actors.contains(x),
{
    let ops = import::import_ops(e);
    let actors = import::actors_of(e);
    let author = import::author_of(e);
    let others = mapper::others(ops, author, actors.len());
    let list = import::imported(e).other_actors;
    imported_actors_are_sorted(e);
    import::actors_are_sorted(e);
    if list.contains(x) {
        let k = choose|k: int| 0 <= k < list.len() && list[k] == x;
        mapper::others_are_mentioned(ops, author, actors.len(), k);
        assert(list[k] == actors[others[k] as int]);
        assert(actors.contains(x));
        let n = choose|n: int|
            0 <= n < e.operations.len() && import::names_in(#[trigger] e.operations[n]).contains(x);
        lemma_named(e.operations[n], x);
    }
    let op = e.operations[i];
    if 0 <= i < e.operations.len() && x != e.actor_id {
        import::lemma_names_in(op);
        import::lemma_names_known(e, i);
        assert(import::op_fits(op));
        if op.obj matches ObjectModel::Id(id) && id.actor == x && id.counter >= 1 {
            lemma_mentioned_id(e, i, op.obj->Id_0);
            lemma_local_name(e, x);
            lemma_other_listed(e, x);
        } else if op.key matches legacy::KeyModel::Elem(id) && id.actor == x && id.counter >= 1 {
            lemma_mentioned_id(e, i, op.key->Elem_0);
            lemma_local_name(e, x);
            lemma_other_listed(e, x);
        } else if 0 <= j < op.pred.len() && op.pred[j].actor == x {
            assert(import::id_fits(op.pred[j]));
            assert(ops[i].pred[j] == import::import_id(op.pred[j], actors));
            lemma_mentioned_id(e, i, op.pred[j]);
            lemma_local_name(e, x);
            lemma_other_listed(e, x);
        }
    }
}

/// The operation names an actor in the id of its object, of its list element or
/// of one of its predecessors.
pub open spec fn names(op: legacy::OpModel, x: Seq<u8>) -> bool {
    ||| op.obj matches ObjectModel::Id(id) && id.actor == x
    ||| op.key matches legacy::KeyModel::Elem(id) && id.actor == x
    ||| exists|j: int| 0 <= j < op.pred.len() && (#[trigger] op.pred[j]).actor == x
}

proof fn lemma_named(op: legacy::OpModel, x: Seq<u8>)
    requires
        import::names_in(op).contains(x),
    ensures
        names(op, x),
{
    let all = import::names_in(op);
    let n = choose|n: int| 0 <= n < all.len() && all[n] == x;
    let front = (if op.obj is Id {
        1int
    } else {
        0int
    }) + (if op.key is Elem {
        1int
    } else {
        0int
    });
    if n >= front {
        assert(op.pred[n - front].actor == x);
    }
}

proof fn lemma_other_listed(e: ExpandedModel, x: Seq<u8>)
    requires
        x != e.actor_id,
        ({
            let a = import::index_in(import::actors_of(e), x);
            let local = mapper::local_index(import::import_ops(e), import::author_of(e), a);
            &&& 1 <= local < expand::actor_list(import::imported(e)).len()
            &&& expand::actor_list(import::imported(e))[local as int] == x
        }),
    ensures
        import::imported(e).other_actors.contains(x),
{
    let a = import::index_in(import::actors_of(e), x);
    let local = mapper::local_index(import::import_ops(e), import::author_of(e), a);
    assert(import::imported(e).other_actors[local - 1] == x);
}

/// The bytes of a change that was built: the fixed bytes, the first four of its
/// hash, the number 1, and its body behind its length. The body holds what the
/// change says of itself, then its columns and its extra bytes. The hash is that
/// of the number 1 and the body behind its length.
pub proof fn built_bytes_are_laid_out_so(
    ops: Seq<OpModel>,
    meta: MetadataModel,
    hashes: Seq<Seq<u8>>,
    m: MapperModel,
)
    ensures
        ({
            let change = builder::built_change(ops, meta, hashes, m);
            let body = stored::Body {
                dependencies: change.dependencies,
                actor: change.actor,
                seq: meta.seq,
                start_op: change.start_op,
                timestamp: meta.timestamp,
                message: match meta.message {
                    Some(message) => message,
                    None => Seq::empty(),
                },
                other_actors: change.other_actors,
                columns: change.columns,
            };
            let columns = if ops.len() == 0 {
                Seq::empty()
            } else {
                columns::column_parts(ops, meta.actor).flatten()
            };
            let data = stored::body_bytes(body, columns + meta.extra);
            let len = leb::uleb_bytes(data.len());
            let hash = chunk::sha256(seq![1u8] + len + data);
            &&& change.bytes == seq![0x85u8, 0x6f, 0x4a, 0x83] + hash.take(4) + seq![1u8] + len
                + data
            &&& change.header.hash == hash
            &&& change.header.checksum == hash.take(4)
        }),
{
    parse::lists_of_byte_strings_are_flat(columns::column_parts(ops, meta.actor));
    let data = builder::built_data(ops, meta, hashes, m);
    chunk::headers_are_made_so(
        chunk::new_header(ChunkType::Change, data).checksum,
        ChunkType::Change,
        data,
    );
}

/// The columns of a change that was built stand one behind the other, each where
/// its bytes are.
pub proof fn built_columns_stand_so(ops: Seq<OpModel>, author: nat, i: int)
    requires
        ops.len() > 0,
        0 <= i < 14,
        columns::column_parts(ops, author).flatten().len() <= usize::MAX,
    ensures
        ({
            let parts = columns::column_parts(ops, author);
            let ranges = builder::op_columns(ops, author).ranges();
            &&& ranges[i].start == if i == 0 {
                0int
            } else {
                ranges[i - 1].end as int
            }
            &&& parts.flatten().subrange(ranges[i].start as int, ranges[i].end as int) == parts[i]
        }),
{
    let parts = columns::column_parts(ops, author);
    parse::lists_of_byte_strings_are_flat(parts);
    parse::lemma_concat_part(parts, i);
    if i > 0 {
        parse::lemma_concat_part(parts, i - 1);
    } else {
        assert(parts.take(0).len() == 0);
    }
    let ranges = builder::op_columns(ops, author).ranges();
    assert(ranges[i] == columns::part_range(parts, i));
    if i > 0 {
        assert(ranges[i - 1] == columns::part_range(parts, i - 1));
    }
}

/// A spelled out change can be imported exactly where its counters fit in 32
/// bits, and the numbers of its actors and of the predecessors of its operations
/// too, and its values have less than 2^60 bytes and a type below 16.
pub proof fn what_can_be_imported(e: ExpandedModel)
    ensures
        import::importable(e) <==> {
            &&& 1 <= e.start_op
            &&& e.operations.len() > 0 ==> e.start_op + e.operations.len() <= 0x1_0000_0000
            &&& import::actors_of(e).len() <= 0xffff_ffff
            &&& e.operations.flat_map(|op: legacy::OpModel| op.pred).len() <= 0xffff_ffff
            &&& forall|i: int|
                0 <= i < e.operations.len() ==> {
                    let op = #[trigger] e.operations[i];
                    let value = op.action.spec_value();
                    &&& op.obj matches ObjectModel::Id(id) ==> id.counter <= 0xffff_ffff
                    &&& op.key matches legacy::KeyModel::Elem(id) ==> id.counter <= 0xffff_ffff
                    &&& forall|j: int|
                        0 <= j < op.pred.len() ==> (#[trigger] op.pred[j]).counter <= 0xffff_ffff
                    &&& value.raw().len() < 0x1000_0000_0000_0000
                    &&& value matches ScalarModel::Unknown { type_code, .. } ==> type_code < 16
                }
        },
{
    lemma_preds_counted(e, 0);
    assert(e.operations.skip(0) =~= e.operations);
    if import::importable(e) {
        assert forall|i: int| 0 <= i < e.operations.len() implies import::op_fits(
            #[trigger] e.operations[i],
        ) by {}
    }
    assert forall|i: int| 0 <= i < e.operations.len() implies (import::op_fits(
        #[trigger] e.operations[i],
    ) <==> {
        let op = e.operations[i];
        let value = op.action.spec_value();
        &&& op.obj matches ObjectModel::Id(id) ==> id.counter <= 0xffff_ffff
        &&& op.key matches legacy::KeyModel::Elem(id) ==> id.counter <= 0xffff_ffff
        &&& forall|j: int|
            0 <= j < op.pred.len() ==> (#[trigger] op.pred[j]).counter <= 0xffff_ffff
        &&& value.raw().len() < 0x1000_0000_0000_0000
        &&& value matches ScalarModel::Unknown { type_code, .. } ==> type_code < 16
    }) by {}
}

proof fn lemma_preds_counted(e: ExpandedModel, from: nat)
    requires
        from <= e.operations.len(),
    ensures
        columns::preds_from(import::import_ops(e), from).len() == e.operations.skip(
            from as int,
        ).flat_map(|op: legacy::OpModel| op.pred).len(),
    decreases e.operations.len() - from,
{
    let f = |op: legacy::OpModel| op.pred;
    let rest = e.operations.skip(from as int);
    if from < e.operations.len() {
        lemma_preds_counted(e, from + 1);
        assert(rest.drop_first() =~= e.operations.skip(from as int + 1));
        assert(rest.map_values(f).drop_first() =~= e.operations.skip(from as int + 1).map_values(
            f,
        ));
        assert(import::import_ops(e)[from as int].pred.len() == e.operations[from as int].pred.len());
    }
}

/// A change can be spelled out exactly where all of its operations can be read
/// and the actors of their objects, list elements and predecessors are among its
/// own, of which there is one more than its other actors. The root and the head of
/// a list have no actor.
pub proof fn what_can_be_spelled_out(c: ChangeModel)
    ensures
        expand::expandable(c) <==> c.ops().1 is None && forall|i: int|
            0 <= i < c.ops().0.len() ==> {
                let op = #[trigger] c.ops().0[i];
                let n = 1 + c.other_actors.len();
                &&& op.obj.0.actor < n || (op.obj.0.counter == 0 && op.obj.0.actor == 0)
                &&& op.key matches KeyModel::Elem(e) ==> e.0.actor < n
                &&& forall|j: int| 0 <= j < op.pred.len() ==> (#[trigger] op.pred[j]).actor < n
            },
{
    if expand::expandable(c) {
        assert forall|i: int| 0 <= i < c.ops().0.len() implies expand::actors_known(
            #[trigger] c.ops().0[i],
            1 + c.other_actors.len(),
        ) by {}
    }
}

/// Once a change was saved its compressed form is known, where it is longer than
/// 256 bytes, and else that it is too small. What is known is not forgotten.
pub proof fn saving_is_remembered(change: ChangeModel, known: CompressionModel)
    ensures
        ({
            let (bytes, after) = super::saved(change, known);
            match known {
                CompressionModel::NotCompressed => if change.bytes.len() > 256 {
                    after matches CompressionModel::Compressed(c) && c.bytes == bytes && c.checksum
                        == change.header.checksum
                } else {
                    after is TooSmallToCompress
                },
                _ => after == known,
            }
        }),
        super::compressed_form(known) == match known {
            CompressionModel::Compressed(c) => Some(c),
            _ => None,
        },
        forall|c: CompressedModel| #[trigger]
            super::read_compression(Some(c)) == CompressionModel::Compressed(c),
        super::read_compression(None) is NotCompressed,
{
}

/// The other actors of a change that was built are those of the list that its
/// operations mention, without the author, in the order of the list.
pub proof fn built_actors_are_those_that_are_mentioned(
    ops: Seq<OpModel>,
    meta: MetadataModel,
    hashes: Seq<Seq<u8>>,
    actors: Seq<Seq<u8>>,
    a: nat,
    i: int,
    j: int,
)
    requires
        meta.actor < actors.len() <= u32::MAX,
    ensures
        ({
            let names = builder::fresh_change(ops, meta, hashes, actors).other_actors;
            let places = mapper::others(ops, meta.actor, actors.len());
            &&& builder::fresh_change(ops, meta, hashes, actors).actor == actors[meta.actor as int]
            &&& names.len() == places.len()
            &&& 0 <= i < names.len() ==> {
                &&& places[i] < actors.len()
                &&& places[i] != meta.actor
                &&& mapper::mentioned(ops, places[i])
                &&& names[i] == actors[places[i] as int]
            }
            &&& 0 <= i < j < names.len() ==> places[i] < places[j]
            &&& a < actors.len() && a != meta.actor && mapper::mentioned(ops, a)
                ==> places.contains(a)
        }),
{
    let places = mapper::others(ops, meta.actor, actors.len());
    if 0 <= i < places.len() {
        mapper::others_are_mentioned(ops, meta.actor, actors.len(), i);
    }
    if 0 <= i < j < places.len() {
        mapper::others_are_increasing(ops, meta.actor, actors.len(), i, j);
    }
    if a < actors.len() && a != meta.actor && mapper::mentioned(ops, a) {
        mapper::local_index_finds_actor(ops, meta.actor, actors.len(), a);
        let at = mapper::local_index(ops, meta.actor, a) - 1;
        assert((seq![meta.actor] + places)[at + 1] == places[at]);
    }
}

/// A change can be built exactly where its author and all actors that its
/// operations mention are in the list of actors, its dependencies in the list of
/// hashes, its operations and their predecessors can be counted in 32 bits, its
/// values have less than 2^60 bytes and a type below 16, and there is a counter
/// for its first operation.
pub proof fn what_can_be_built(
    ops: Seq<OpModel>,
    meta: MetadataModel,
    hashes: Seq<Seq<u8>>,
    actors: nat,
)
    ensures
        builder::buildable(ops, meta, hashes, actors) <==> {
            &&& meta.actor < actors <= 0xffff_ffff
            &&& ops.len() == 0 ==> meta.max_op < u64::MAX
            &&& ops.len() > 0 ==> {
                &&& ops.len() <= 0xffff_ffff
                &&& ops.flat_map(|op: OpModel| op.pred).len() <= 0xffff_ffff
                &&& ops[0].id.counter >= 1
                &&& forall|a: nat| #[trigger] mapper::mentioned(ops, a) ==> a < actors
                &&& forall|i: int|
                    0 <= i < ops.len() ==> (#[trigger] ops[i]).value.raw().len()
                        < 0x1000_0000_0000_0000 && (ops[i].value matches ScalarModel::Unknown {
                        type_code,
                        ..
                    } ==> type_code < 16)
            }
            &&& forall|i: int|
                0 <= i < meta.deps.len() ==> (#[trigger] meta.deps[i]) < hashes.len()
                    && meta.deps[i] <= usize::MAX
        },
{
    columns::lemma_preds_flat(ops, 0);
    assert(ops.skip(0) =~= ops);
    assert forall|i: int| 0 <= i < ops.len() implies ((#[trigger] ops[i]).value.writable() <==> (
    ops[i].value.raw().len() < 0x1000_0000_0000_0000 && (ops[i].value matches ScalarModel::Unknown {
        type_code,
        ..
    } ==> type_code < 16))) by {}
}

} // verus!
