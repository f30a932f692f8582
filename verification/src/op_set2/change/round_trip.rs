//! What is written as a change is read back.
use super::columns::{self, ChangeOpsColumns};
use super::mapper::{self, MapperModel};
use super::MetadataModel;
use crate::columnar::encoding::cells;
use crate::columnar::encoding::runs::{self, ItemKind};
use crate::leb;
use crate::op_set2::meta::ValueMeta;
use crate::op_set2::op::OpModel;
use crate::op_set2::types::{self, KeyModel, ScalarModel};
use crate::storage::change::iter::{self, Rows};
use crate::storage::change::{self as stored, Body, ChangeModel, ParseError, ReadFault};
use crate::storage::chunk::{self, ChunkType};
use crate::storage::columns::{self as storage_columns, ColumnType, RawColumn};
use crate::storage::parse;
use crate::text;
use crate::types::{ElemId, ObjId, OpId};
use vstd::prelude::*;

verus! {

// The columns are placed.

/// The rows of parts.
pub open spec fn rows_of_parts(parts: Seq<Seq<u8>>, start_op: nat) -> Rows {
    Rows {
        obj_actor: cells::uint_col(parts[0]),
        obj_ctr: cells::uint_col(parts[1]),
        key_actor: cells::uint_col(parts[2]),
        key_ctr: cells::delta_col(parts[3]),
        key_str: cells::text_col(parts[4]),
        insert: cells::bool_col(parts[5]),
        action: cells::uint_col(parts[6]),
        meta: cells::uint_col(parts[7]),
        value: parts[8],
        pred_count: cells::uint_col(parts[9]),
        pred_actor: cells::uint_col(parts[10]),
        pred_ctr: cells::delta_col(parts[11]),
        expand: cells::bool_col(parts[12]),
        mark_name: cells::text_col(parts[13]),
        start_op,
        next_idx: 0,
    }
}

proof fn lemma_place_all_prefix(
    cols: Seq<RawColumn>,
    col: RawColumn,
    data: Seq<u8>,
    start_op: nat,
    n: nat,
)
    requires
        n <= cols.len(),
    ensures
        iter::place_all(cols.push(col), data, start_op, n) == iter::place_all(
            cols,
            data,
            start_op,
            n,
        ),
    decreases n,
{
    if n > 0 {
        lemma_place_all_prefix(cols, col, data, start_op, (n - 1) as nat);
    }
}

/// One more column is placed where there was none.
proof fn lemma_place_push(
    cols: Seq<RawColumn>,
    col: RawColumn,
    data: Seq<u8>,
    start_op: nat,
    rows: Rows,
)
    requires
        iter::rows_of(cols, data, start_op) == Ok::<_, ParseError>(rows),
    ensures
        iter::rows_of(cols.push(col), data, start_op) == iter::place(rows, col, data),
{
    lemma_place_all_prefix(cols, col, data, start_op, cols.len());
    assert(cols.push(col)[cols.len() as int] == col);
}

/// The columns of a change hold their parts.
pub open spec fn holds_parts(c: ChangeOpsColumns, data: Seq<u8>, parts: Seq<Seq<u8>>) -> bool {
    &&& parts.len() == 14
    &&& forall|i: int|
        0 <= i < 14 ==> data.subrange(
            (#[trigger] c.ranges()[i]).start as int,
            c.ranges()[i].end as int,
        ) == parts[i]
    &&& columns::is_empty(c.value) ==> parts[8].len() == 0
    &&& columns::is_empty(c.pred_actor) ==> parts[10].len() == 0
    &&& columns::is_empty(c.expand) ==> parts[12].len() == 0
    &&& columns::is_empty(c.mark_name) ==> parts[13].len() == 0
    &&& columns::is_empty(c.pred_actor) ==> parts[11].len() == 0
}

/// The rows of the first `n` parts.
pub open spec fn rows_of_first(parts: Seq<Seq<u8>>, start_op: nat, n: nat) -> Rows {
    let none = iter::no_rows(start_op);
    Rows {
        obj_actor: if n > 0 {
            cells::uint_col(parts[0])
        } else {
            none.obj_actor
        },
        obj_ctr: if n > 1 {
            cells::uint_col(parts[1])
        } else {
            none.obj_ctr
        },
        key_actor: if n > 2 {
            cells::uint_col(parts[2])
        } else {
            none.key_actor
        },
        key_ctr: if n > 3 {
            cells::delta_col(parts[3])
        } else {
            none.key_ctr
        },
        key_str: if n > 4 {
            cells::text_col(parts[4])
        } else {
            none.key_str
        },
        insert: if n > 5 {
            cells::bool_col(parts[5])
        } else {
            none.insert
        },
        action: if n > 6 {
            cells::uint_col(parts[6])
        } else {
            none.action
        },
        meta: if n > 7 {
            cells::uint_col(parts[7])
        } else {
            none.meta
        },
        value: if n > 8 {
            parts[8]
        } else {
            none.value
        },
        pred_count: if n > 9 {
            cells::uint_col(parts[9])
        } else {
            none.pred_count
        },
        pred_actor: if n > 10 {
            cells::uint_col(parts[10])
        } else {
            none.pred_actor
        },
        pred_ctr: if n > 11 {
            cells::delta_col(parts[11])
        } else {
            none.pred_ctr
        },
        expand: if n > 12 {
            cells::bool_col(parts[12])
        } else {
            none.expand
        },
        mark_name: if n > 13 {
            cells::text_col(parts[13])
        } else {
            none.mark_name
        },
        start_op,
        next_idx: 0,
    }
}

/// The `k`-th column is placed.
proof fn lemma_place_part(
    cols: Seq<RawColumn>,
    c: ChangeOpsColumns,
    data: Seq<u8>,
    start_op: nat,
    parts: Seq<Seq<u8>>,
    k: int,
)
    requires
        0 <= k < 14,
        holds_parts(c, data, parts),
        iter::rows_of(cols, data, start_op) == Ok::<_, ParseError>(
            rows_of_first(parts, start_op, k as nat),
        ),
    ensures
        iter::rows_of(cols.push(op_column_at(c, k)), data, start_op) == Ok::<_, ParseError>(
            rows_of_first(parts, start_op, (k + 1) as nat),
        ),
{
    let col = op_column_at(c, k);
    lemma_place_push(cols, col, data, start_op, rows_of_first(parts, start_op, k as nat));
    assert(col.data == c.ranges()[k]);
    assert(data.subrange(c.ranges()[k].start as int, c.ranges()[k].end as int) == parts[k]);
    let rows = rows_of_first(parts, start_op, k as nat);
    let next = rows_of_first(parts, start_op, (k + 1) as nat);
    if k == 0 {
        assert(col.spec.0 == 1);
        assert(iter::place(rows, col, data) == Ok::<_, ParseError>(next));
    }
    if k == 1 {
        assert(col.spec.0 == 2);
        assert(iter::place(rows, col, data) == Ok::<_, ParseError>(next));
    }
    if k == 2 {
        assert(col.spec.0 == 17);
        assert(iter::place(rows, col, data) == Ok::<_, ParseError>(next));
    }
    if k == 3 {
        assert(col.spec.0 == 19);
        assert(iter::place(rows, col, data) == Ok::<_, ParseError>(next));
    }
    if k == 4 {
        assert(col.spec.0 == 21);
        assert(iter::place(rows, col, data) == Ok::<_, ParseError>(next));
    }
    if k == 5 {
        assert(col.spec.0 == 52);
        assert(iter::place(rows, col, data) == Ok::<_, ParseError>(next));
    }
    if k == 6 {
        assert(col.spec.0 == 66);
        assert(iter::place(rows, col, data) == Ok::<_, ParseError>(next));
    }
    if k == 7 {
        assert(col.spec.0 == 86);
        assert(iter::place(rows, col, data) == Ok::<_, ParseError>(next));
    }
    if k == 8 {
        assert(col.spec.0 == 87);
        assert(iter::place(rows, col, data) == Ok::<_, ParseError>(next));
    }
    if k == 9 {
        assert(col.spec.0 == 112);
        assert(iter::place(rows, col, data) == Ok::<_, ParseError>(next));
    }
    if k == 10 {
        assert(col.spec.0 == 113);
        assert(iter::place(rows, col, data) == Ok::<_, ParseError>(next));
    }
    if k == 11 {
        assert(col.spec.0 == 115);
        assert(iter::place(rows, col, data) == Ok::<_, ParseError>(next));
    }
    if k == 12 {
        assert(col.spec.0 == 148);
        assert(iter::place(rows, col, data) == Ok::<_, ParseError>(next));
    }
    if k == 13 {
        assert(col.spec.0 == 165);
        assert(iter::place(rows, col, data) == Ok::<_, ParseError>(next));
    }
}

/// The `k`-th column of operations.
pub open spec fn op_column_at(c: ChangeOpsColumns, k: int) -> RawColumn {
    if k == 0 {
        columns::op_column(0, ColumnType::Actor, c.obj_actor)
    } else if k == 1 {
        columns::op_column(0, ColumnType::Integer, c.obj_ctr)
    } else if k == 2 {
        columns::op_column(1, ColumnType::Actor, c.key_actor)
    } else if k == 3 {
        columns::op_column(1, ColumnType::DeltaInteger, c.key_ctr)
    } else if k == 4 {
        columns::op_column(1, ColumnType::String, c.key_str)
    } else if k == 5 {
        columns::op_column(3, ColumnType::Boolean, c.insert)
    } else if k == 6 {
        columns::op_column(4, ColumnType::Integer, c.action)
    } else if k == 7 {
        columns::op_column(5, ColumnType::ValueMetadata, c.value_meta)
    } else if k == 8 {
        columns::op_column(5, ColumnType::Value, c.value)
    } else if k == 9 {
        columns::op_column(7, ColumnType::Group, c.pred_count)
    } else if k == 10 {
        columns::op_column(7, ColumnType::Actor, c.pred_actor)
    } else if k == 11 {
        columns::op_column(7, ColumnType::DeltaInteger, c.pred_ctr)
    } else if k == 12 {
        columns::op_column(9, ColumnType::Boolean, c.expand)
    } else {
        columns::op_column(10, ColumnType::String, c.mark_name)
    }
}

/// An empty part that is left out reads as one that is there.
proof fn lemma_skip_part(parts: Seq<Seq<u8>>, start_op: nat, k: int)
    requires
        parts.len() == 14,
        k == 8 || k == 10 || k == 11 || k == 12 || k == 13,
        parts[k].len() == 0,
    ensures
        rows_of_first(parts, start_op, (k + 1) as nat) == rows_of_first(parts, start_op, k as nat),
{
    assert(parts[k] =~= Seq::empty());
}

/// The columns of a change read as their parts.
pub proof fn lemma_rows_of_columns(
    c: ChangeOpsColumns,
    data: Seq<u8>,
    start_op: nat,
    parts: Seq<Seq<u8>>,
)
    requires
        holds_parts(c, data, parts),
    ensures
        iter::rows_of(c.raw_columns(), data, start_op) == Ok::<_, ParseError>(
            rows_of_parts(parts, start_op),
        ),
{
    let none = Seq::<RawColumn>::empty();
    assert(iter::rows_of(none, data, start_op) == Ok::<_, ParseError>(iter::no_rows(start_op)));
    assert(rows_of_first(parts, start_op, 0) == iter::no_rows(start_op));
    let l1 = none.push(op_column_at(c, 0));
    lemma_place_part(none, c, data, start_op, parts, 0);
    let l2 = l1.push(op_column_at(c, 1));
    lemma_place_part(l1, c, data, start_op, parts, 1);
    let l3 = l2.push(op_column_at(c, 2));
    lemma_place_part(l2, c, data, start_op, parts, 2);
    let l4 = l3.push(op_column_at(c, 3));
    lemma_place_part(l3, c, data, start_op, parts, 3);
    let l5 = l4.push(op_column_at(c, 4));
    lemma_place_part(l4, c, data, start_op, parts, 4);
    let l6 = l5.push(op_column_at(c, 5));
    lemma_place_part(l5, c, data, start_op, parts, 5);
    let l7 = l6.push(op_column_at(c, 6));
    lemma_place_part(l6, c, data, start_op, parts, 6);
    let l8 = l7.push(op_column_at(c, 7));
    lemma_place_part(l7, c, data, start_op, parts, 7);
    assert(l8 =~= c.leading_columns());
    let a = c.leading_columns() + c.value_column();
    if columns::is_empty(c.value) {
        assert(a =~= l8);
        lemma_skip_part(parts, start_op, 8);
    } else {
        lemma_place_part(l8, c, data, start_op, parts, 8);
        assert(a =~= l8.push(op_column_at(c, 8)));
    }
    let b = a.push(op_column_at(c, 9));
    lemma_place_part(a, c, data, start_op, parts, 9);
    let d = a + c.pred_columns();
    if columns::is_empty(c.pred_actor) {
        assert(d =~= b);
        lemma_skip_part(parts, start_op, 10);
        lemma_skip_part(parts, start_op, 11);
    } else {
        let b1 = b.push(op_column_at(c, 10));
        lemma_place_part(b, c, data, start_op, parts, 10);
        lemma_place_part(b1, c, data, start_op, parts, 11);
        assert(d =~= b1.push(op_column_at(c, 11)));
    }
    let e = if columns::is_empty(c.expand) {
        d
    } else {
        d.push(op_column_at(c, 12))
    };
    if columns::is_empty(c.expand) {
        lemma_skip_part(parts, start_op, 12);
    } else {
        lemma_place_part(d, c, data, start_op, parts, 12);
    }
    let all = c.raw_columns();
    if columns::is_empty(c.mark_name) {
        assert(all =~= e);
        lemma_skip_part(parts, start_op, 13);
    } else {
        lemma_place_part(e, c, data, start_op, parts, 13);
        assert(all =~= e.push(op_column_at(c, 13)));
    }
    assert(rows_of_first(parts, start_op, 14) == rows_of_parts(parts, start_op));
}

// The rows are read.

/// What is left of cells that are left out when they are all null.
pub open spec fn left<V>(cells: Seq<Option<V>>, i: int) -> Seq<Option<V>> {
    if cells::all_null(cells) {
        Seq::empty()
    } else {
        cells.skip(i)
    }
}

/// What is left of cells that are left out when they are all `false`.
pub open spec fn left_bools(cells: Seq<bool>, i: int) -> Seq<bool> {
    if cells::all_false(cells) {
        Seq::empty()
    } else {
        cells.skip(i)
    }
}

/// What is left of the columns of a change after `i` operations.
pub open spec fn written_rows(ops: Seq<OpModel>, author: nat, start_op: nat, i: nat) -> Rows {
    let n = i as int;
    let preds = columns::preds_from(ops, i);
    Rows {
        obj_actor: columns::sound(left(columns::obj_actor_cells(ops, author), n)),
        obj_ctr: columns::sound(left(columns::obj_ctr_cells(ops), n)),
        key_actor: columns::sound(left(columns::key_actor_cells(ops, author), n)),
        key_ctr: columns::sound(left(columns::key_ctr_cells(ops), n)),
        key_str: columns::sound(left(columns::key_str_cells(ops), n)),
        insert: columns::sound(columns::insert_cells(ops).skip(n)),
        action: columns::sound(columns::action_cells(ops).skip(n)),
        meta: columns::sound(columns::meta_cells(ops).skip(n)),
        pred_count: columns::sound(columns::pred_count_cells(ops).skip(n)),
        pred_actor: columns::sound(columns::pred_actor_cells(ops, author, preds)),
        pred_ctr: columns::sound(columns::pred_ctr_cells(preds)),
        expand: columns::sound(left_bools(columns::expand_cells(ops), n)),
        mark_name: columns::sound(left(columns::mark_name_cells(ops), n)),
        value: columns::values_from(ops, i),
        start_op,
        next_idx: i,
    }
}

/// The value that is read of an operation.
pub open spec fn value_read(op: OpModel) -> Result<ScalarModel, ReadFault> {
    iter::value_of(op.value_meta(), op.value.raw())
}

/// An operation that can be read when it was written: the bytes of its value
/// are of its type, and what they hold goes with its action.
pub open spec fn readable(op: OpModel) -> bool {
    &&& op.value.writable()
    &&& value_read(op) matches Ok(v) && iter::value_allowed(op.action, v)
}

/// A value that has the bytes and the type number of another one, with an
/// unambiguous type, is read as that one.
pub proof fn value_reads_as(op: OpModel, v: ScalarModel)
    requires
        op.value.writable(),
        v.unambiguous(),
        op.value.raw() == v.raw(),
        op.value.value_type().spec_code() == v.value_type().spec_code(),
    ensures
        value_read(op) == Ok::<_, ReadFault>(v),
        value_kept(op),
{
    let meta = op.value_meta();
    assert(meta == v.raw().len() * 16 + v.value_type().spec_code());
    assert(meta % 16 == v.value_type().spec_code());
    assert(ValueMeta(meta).spec_type() == v.value_type());
    types::scalar_read_of_write(v);
}

/// A value is read as it was written, unless it claims to be of no known type
/// but has the number of one.
pub proof fn value_reads_back(op: OpModel)
    requires
        op.value.writable(),
        op.value.unambiguous(),
    ensures
        value_read(op) == Ok::<_, ReadFault>(op.value),
{
    value_reads_as(op, op.value);
}

/// The value that is read of an operation is written as the bytes it was read
/// of.
pub open spec fn value_kept(op: OpModel) -> bool {
    value_read(op) matches Ok(v) && v.raw() == op.value.raw() && v.value_type().spec_code()
        == op.value.value_type().spec_code()
}

/// Operations that differ at most in a value which both write as the same
/// bytes of the same type number.
pub open spec fn written_alike(a: Seq<OpModel>, b: Seq<OpModel>) -> bool {
    &&& a.len() == b.len()
    &&& forall|i: int|
        0 <= i < a.len() ==> {
            &&& #[trigger] a[i] == (OpModel { value: a[i].value, ..b[i] })
            &&& a[i].value.raw() == b[i].value.raw()
            &&& a[i].value.value_type().spec_code() == b[i].value.value_type().spec_code()
        }
}

proof fn lemma_others_alike(a: Seq<OpModel>, b: Seq<OpModel>, author: nat, k: nat)
    requires
        written_alike(a, b),
    ensures
        mapper::others(a, author, k) == mapper::others(b, author, k),
    decreases k,
{
    if k > 0 {
        let x = (k - 1) as nat;
        lemma_others_alike(a, b, author, x);
        assert forall|i: int| 0 <= i < a.len() implies mapper::mentions(#[trigger] a[i], x)
            == mapper::mentions(b[i], x) by {
            assert(a[i].obj_actor() == b[i].obj_actor());
            assert(a[i].key_actor() == b[i].key_actor());
            assert(a[i].pred == b[i].pred);
        }
        if mapper::mentioned(a, x) {
            let i = choose|i: int| 0 <= i < a.len() && mapper::mentions(#[trigger] a[i], x);
            assert(mapper::mentions(b[i], x));
        }
        if mapper::mentioned(b, x) {
            let i = choose|i: int| 0 <= i < b.len() && mapper::mentions(#[trigger] b[i], x);
            assert(mapper::mentions(a[i], x));
        }
    }
}

pub proof fn lemma_lists_alike(a: Seq<OpModel>, b: Seq<OpModel>, from: nat)
    requires
        written_alike(a, b),
    ensures
        columns::preds_from(a, from) == columns::preds_from(b, from),
        columns::values_from(a, from) == columns::values_from(b, from),
    decreases a.len() - from,
{
    if from < a.len() {
        lemma_lists_alike(a, b, from + 1);
        assert(a[from as int].pred == b[from as int].pred);
    }
}

/// The columns of operations that are written alike are the same.
proof fn lemma_parts_alike(a: Seq<OpModel>, b: Seq<OpModel>, author: nat)
    requires
        written_alike(a, b),
    ensures
        columns::column_parts(a, author) == columns::column_parts(b, author),
{
    lemma_lists_alike(a, b, 0);
    assert forall|x: nat| mapper::local_index(a, author, x) == mapper::local_index(b, author, x) by {
        lemma_others_alike(a, b, author, x);
    }
    let preds = columns::preds_from(a, 0);
    assert(columns::obj_actor_cells(a, author) =~= columns::obj_actor_cells(b, author));
    assert(columns::obj_ctr_cells(a) =~= columns::obj_ctr_cells(b));
    assert(columns::key_actor_cells(a, author) =~= columns::key_actor_cells(b, author));
    assert(columns::key_ctr_cells(a) =~= columns::key_ctr_cells(b));
    assert(columns::key_str_cells(a) =~= columns::key_str_cells(b));
    assert(columns::insert_cells(a) =~= columns::insert_cells(b));
    assert(columns::action_cells(a) =~= columns::action_cells(b));
    assert(columns::meta_cells(a) =~= columns::meta_cells(b));
    assert(columns::pred_count_cells(a) =~= columns::pred_count_cells(b));
    assert(columns::pred_actor_cells(a, author, preds) =~= columns::pred_actor_cells(
        b,
        author,
        preds,
    ));
    assert(columns::expand_cells(a) =~= columns::expand_cells(b));
    assert(columns::mark_name_cells(a) =~= columns::mark_name_cells(b));
}

/// Operations that are written alike make the same change.
pub proof fn alike_operations_make_one_change(
    a: Seq<OpModel>,
    b: Seq<OpModel>,
    meta: MetadataModel,
    hashes: Seq<Seq<u8>>,
    actors: Seq<Seq<u8>>,
)
    requires
        written_alike(a, b),
    ensures
        super::fresh_change(a, meta, hashes, actors) == super::fresh_change(b, meta, hashes, actors),
{
    lemma_parts_alike(a, b, meta.actor);
    lemma_others_alike(a, b, meta.actor, actors.len());
    assert(super::fresh_mapper(a, meta.actor, actors) == super::fresh_mapper(b, meta.actor, actors));
    assert(a.len() > 0 ==> a[0].id == b[0].id);
}

/// An id, with its actor's index within the change.
pub open spec fn local_id(ops: Seq<OpModel>, author: nat, id: OpId) -> OpId {
    OpId {
        counter: id.counter,
        actor: mapper::local_index(ops, author, id.actor as nat) as u32,
    }
}

/// The `i`-th operation of a change, with the indices of its actors within the
/// change and the id that its place gives it. An object without a counter is
/// read as the root.
pub open spec fn local_op(ops: Seq<OpModel>, author: nat, start_op: nat, i: int) -> OpModel {
    let op = ops[i];
    OpModel {
        id: OpId { counter: (start_op + i) as u32, actor: 0 },
        obj: if op.obj.0.counter == 0 {
            ObjId::spec_root()
        } else {
            ObjId(local_id(ops, author, op.obj.0))
        },
        value: match value_read(op) {
            Ok(v) => v,
            Err(_) => op.value,
        },
        key: match op.key {
            KeyModel::Prop(s) => KeyModel::Prop(s),
            KeyModel::Elem(e) => if e == ElemId::spec_head() {
                KeyModel::Elem(e)
            } else {
                KeyModel::Elem(ElemId(local_id(ops, author, e.0)))
            },
        },
        pred: Seq::new(op.pred.len(), |j: int| local_id(ops, author, op.pred[j])),
        ..op
    }
}

/// The operations of a change, as they are read of it.
pub open spec fn local_ops(ops: Seq<OpModel>, author: nat, start_op: nat) -> Seq<OpModel> {
    Seq::new(ops.len(), |i: int| local_op(ops, author, start_op, i))
}

proof fn lemma_left<V>(cells: Seq<Option<V>>, i: int, col: Seq<char>)
    requires
        0 <= i < cells.len(),
    ensures
        iter::or_null(columns::sound(left(cells, i)).pulled(), col) == Ok::<_, ReadFault>(cells[i]),
        columns::sound(left(cells, i)).rest() == columns::sound(left(cells, i + 1)),
{
    if !cells::all_null(cells) {
        assert(cells.skip(i).drop_first() =~= cells.skip(i + 1));
    }
}

proof fn lemma_left_bools(cells: Seq<bool>, i: int, col: Seq<char>)
    requires
        0 <= i < cells.len(),
    ensures
        iter::or_false(columns::sound(left_bools(cells, i)).pulled(), col) == Ok::<_, ReadFault>(cells[i]),
        columns::sound(left_bools(cells, i)).rest() == columns::sound(left_bools(cells, i + 1)),
{
    if !cells::all_false(cells) {
        assert(cells.skip(i).drop_first() =~= cells.skip(i + 1));
    }
}

proof fn lemma_skip<V>(cells: Seq<V>, i: int)
    requires
        0 <= i < cells.len(),
    ensures
        columns::sound(cells.skip(i)).pulled() == cells::Pulled::Cell(cells[i]),
        columns::sound(cells.skip(i)).rest() == columns::sound(cells.skip(i + 1)),
{
    assert(cells.skip(i).drop_first() =~= cells.skip(i + 1));
}

proof fn lemma_read_obj(ops: Seq<OpModel>, author: nat, start_op: nat, i: int, r: Rows)
    requires
        0 <= i < ops.len(),
        mapper::actors_below(ops, u32::MAX as nat),
        r.obj_actor == columns::sound(left(columns::obj_actor_cells(ops, author), i)),
        r.obj_ctr == columns::sound(left(columns::obj_ctr_cells(ops), i)),
    ensures
        iter::read_obj(r) == (
            Ok::<_, ReadFault>(local_op(ops, author, start_op, i).obj),
            Rows {
                obj_actor: columns::sound(left(columns::obj_actor_cells(ops, author), i + 1)),
                obj_ctr: columns::sound(left(columns::obj_ctr_cells(ops), i + 1)),
                ..r
            },
        ),
{
    lemma_left(columns::obj_actor_cells(ops, author), i, "obj_actor"@);
    lemma_left(columns::obj_ctr_cells(ops), i, "obj_ctr"@);
    let op = ops[i];
    if op.obj != ObjId::spec_root() {
        let a = op.obj.0.actor as nat;
        assert(mapper::mentions(op, a));
        assert(mapper::mentioned(ops, a));
        mapper::lemma_others_len(ops, author, a);
    }
}

proof fn lemma_read_key(ops: Seq<OpModel>, author: nat, start_op: nat, i: int, r: Rows)
    requires
        0 <= i < ops.len(),
        mapper::actors_below(ops, u32::MAX as nat),
        r.key_actor == columns::sound(left(columns::key_actor_cells(ops, author), i)),
        r.key_ctr == columns::sound(left(columns::key_ctr_cells(ops), i)),
        r.key_str == columns::sound(left(columns::key_str_cells(ops), i)),
    ensures
        iter::read_key(r) == (
            Ok::<_, ReadFault>(local_op(ops, author, start_op, i).key),
            Rows {
                key_actor: columns::sound(left(columns::key_actor_cells(ops, author), i + 1)),
                key_ctr: columns::sound(left(columns::key_ctr_cells(ops), i + 1)),
                key_str: columns::sound(left(columns::key_str_cells(ops), i + 1)),
                ..r
            },
        ),
{
    lemma_left(columns::key_actor_cells(ops, author), i, "key_actor"@);
    lemma_left(columns::key_ctr_cells(ops), i, "key_ctr"@);
    lemma_left(columns::key_str_cells(ops), i, "key_str"@);
    let op = ops[i];
    match op.key {
        KeyModel::Elem(e) => {
            if e != ElemId::spec_head() {
                let a = e.0.actor as nat;
                assert(mapper::mentions(op, a));
                assert(mapper::mentioned(ops, a));
                mapper::lemma_others_len(ops, author, a);
            }
        },
        KeyModel::Prop(_) => {},
    }
}

proof fn lemma_read_value(ops: Seq<OpModel>, i: int, r: Rows)
    requires
        0 <= i < ops.len(),
        ops[i].value.writable(),
        r.meta == columns::sound(columns::meta_cells(ops).skip(i)),
        r.value == columns::values_from(ops, i as nat),
    ensures
        iter::read_value(r) == (
            value_read(ops[i]),
            Rows {
                meta: columns::sound(columns::meta_cells(ops).skip(i + 1)),
                value: columns::values_from(ops, (i + 1) as nat),
                ..r
            },
        ),
{
    lemma_skip(columns::meta_cells(ops), i);
    let v = ops[i].value;
    let meta = ops[i].value_meta();
    let raw = v.raw();
    assert(meta == raw.len() * 16 + v.value_type().spec_code());
    assert(ValueMeta(meta).spec_length() == raw.len());
    assert(r.value == raw + columns::values_from(ops, (i + 1) as nat));
    assert(r.value.take(raw.len() as int) =~= raw);
    assert(r.value.skip(raw.len() as int) =~= columns::values_from(ops, (i + 1) as nat));
}

/// The predecessors that follow are read.
proof fn lemma_read_pred_list(
    ops: Seq<OpModel>,
    author: nat,
    ids: Seq<OpId>,
    more: Seq<OpId>,
    r: Rows,
)
    requires
        r.pred_actor == columns::sound(columns::pred_actor_cells(ops, author, ids + more)),
        r.pred_ctr == columns::sound(columns::pred_ctr_cells(ids + more)),
        forall|j: int|
            0 <= j < ids.len() ==> mapper::local_index(
                ops,
                author,
                (#[trigger] ids[j]).actor as nat,
            ) <= u32::MAX,
    ensures
        iter::read_pred_list(r, ids.len()) == (
            Ok::<_, ReadFault>(
                Seq::new(ids.len(), |j: int| local_id(ops, author, ids[j])),
            ),
            Rows {
                pred_actor: columns::sound(columns::pred_actor_cells(ops, author, more)),
                pred_ctr: columns::sound(columns::pred_ctr_cells(more)),
                ..r
            },
        ),
    decreases ids.len(),
{
    let all = ids + more;
    let local = Seq::new(ids.len(), |j: int| local_id(ops, author, ids[j]));
    if ids.len() == 0 {
        assert(all =~= more);
        assert(local =~= Seq::empty());
    } else {
        let rest = ids.drop_first();
        assert(all.drop_first() =~= rest + more);
        assert(columns::pred_actor_cells(ops, author, all).drop_first()
            =~= columns::pred_actor_cells(ops, author, rest + more));
        assert(columns::pred_ctr_cells(all).drop_first() =~= columns::pred_ctr_cells(rest + more));
        let r1 = Rows { pred_actor: r.pred_actor.rest(), ..r };
        let r2 = Rows { pred_ctr: r1.pred_ctr.rest(), ..r1 };
        assert(all[0] == ids[0]);
        assert forall|j: int| 0 <= j < rest.len() implies mapper::local_index(
            ops,
            author,
            (#[trigger] rest[j]).actor as nat,
        ) <= u32::MAX by {
            assert(rest[j] == ids[j + 1]);
        }
        lemma_read_pred_list(ops, author, rest, more, r2);
        assert(seq![local_id(ops, author, ids[0])] + Seq::new(
            rest.len(),
            |j: int| local_id(ops, author, rest[j]),
        ) =~= local);
    }
}

proof fn lemma_read_preds(ops: Seq<OpModel>, author: nat, start_op: nat, i: int, r: Rows)
    requires
        0 <= i < ops.len(),
        mapper::actors_below(ops, u32::MAX as nat),
        columns::preds_from(ops, 0).len() <= u32::MAX,
        r.pred_count == columns::sound(columns::pred_count_cells(ops).skip(i)),
        r.pred_actor == columns::sound(
            columns::pred_actor_cells(ops, author, columns::preds_from(ops, i as nat)),
        ),
        r.pred_ctr == columns::sound(
            columns::pred_ctr_cells(columns::preds_from(ops, i as nat)),
        ),
    ensures
        iter::read_preds(r) == (
            Ok::<_, ReadFault>(local_op(ops, author, start_op, i).pred),
            Rows {
                pred_count: columns::sound(columns::pred_count_cells(ops).skip(i + 1)),
                pred_actor: columns::sound(
                    columns::pred_actor_cells(
                        ops,
                        author,
                        columns::preds_from(ops, (i + 1) as nat),
                    ),
                ),
                pred_ctr: columns::sound(
                    columns::pred_ctr_cells(columns::preds_from(ops, (i + 1) as nat)),
                ),
                ..r
            },
        ),
{
    lemma_skip(columns::pred_count_cells(ops), i);
    let ids = ops[i].pred;
    lemma_preds_len(ops, 0, i as nat);
    assert forall|j: int| 0 <= j < ids.len() implies mapper::local_index(
        ops,
        author,
        (#[trigger] ids[j]).actor as nat,
    ) <= u32::MAX by {
        let a = ids[j].actor as nat;
        assert(mapper::mentions(ops[i], a));
        assert(mapper::mentioned(ops, a));
        mapper::lemma_others_len(ops, author, a);
    }
    let r1 = Rows { pred_count: r.pred_count.rest(), ..r };
    lemma_read_pred_list(ops, author, ids, columns::preds_from(ops, (i + 1) as nat), r1);
}

proof fn lemma_preds_len(ops: Seq<OpModel>, from: nat, i: nat)
    requires
        from <= i < ops.len(),
    ensures
        ops[i as int].pred.len() <= columns::preds_from(ops, from).len(),
    decreases i - from,
{
    if from < i {
        lemma_preds_len(ops, from + 1, i);
    }
}

/// The `i`-th operation is read.
proof fn lemma_read_written_row(ops: Seq<OpModel>, author: nat, start_op: nat, i: nat)
    requires
        i < ops.len(),
        readable(ops[i as int]),
        mapper::actors_below(ops, u32::MAX as nat),
        columns::preds_from(ops, 0).len() <= u32::MAX,
        start_op + i <= u32::MAX,
    ensures
        iter::read_row(written_rows(ops, author, start_op, i)) == (
            Ok::<_, ReadFault>(
                Some(local_op(ops, author, start_op, i as int)),
            ),
            written_rows(ops, author, start_op, i + 1),
        ),
{
    reveal(iter::read_op);
    reveal(iter::read_row);
    let n = i as int;
    let r = written_rows(ops, author, start_op, i);
    let next = written_rows(ops, author, start_op, i + 1);
    let op = local_op(ops, author, start_op, n);
    lemma_skip(columns::action_cells(ops), n);
    let r1 = Rows { action: next.action, ..r };
    lemma_read_obj(ops, author, start_op, n, r1);
    let r2 = Rows { obj_actor: next.obj_actor, obj_ctr: next.obj_ctr, ..r1 };
    lemma_read_key(ops, author, start_op, n, r2);
    let r3 = Rows {
        key_actor: next.key_actor,
        key_ctr: next.key_ctr,
        key_str: next.key_str,
        ..r2
    };
    lemma_skip(columns::insert_cells(ops), n);
    let r4 = Rows { insert: next.insert, ..r3 };
    assert(iter::read_insert(r3) == (Ok::<_, ReadFault>(op.insert), r4));
    lemma_read_value(ops, n, r4);
    let r5 = Rows { meta: next.meta, value: next.value, ..r4 };
    lemma_read_preds(ops, author, start_op, n, r5);
    let r6 = Rows {
        pred_count: next.pred_count,
        pred_actor: next.pred_actor,
        pred_ctr: next.pred_ctr,
        ..r5
    };
    lemma_left_bools(columns::expand_cells(ops), n, "expand"@);
    lemma_left(columns::mark_name_cells(ops), n, "mark_name"@);
    let r7 = Rows { expand: next.expand, mark_name: next.mark_name, ..r6 };
    assert(iter::read_mark(r6) == (
        Ok::<_, ReadFault>((op.expand, op.mark_name)),
        r7,
    ));
    assert(iter::read_op(op.action, r1) == (Ok::<_, ReadFault>(op), next));
}

/// All operations from the `i`-th on are read.
proof fn lemma_read_written(ops: Seq<OpModel>, author: nat, start_op: nat, i: nat)
    requires
        i <= ops.len(),
        forall|j: int| 0 <= j < ops.len() ==> readable(#[trigger] ops[j]),
        mapper::actors_below(ops, u32::MAX as nat),
        columns::preds_from(ops, 0).len() <= u32::MAX,
        start_op + ops.len() <= u32::MAX + 1,
    ensures
        iter::read_all(written_rows(ops, author, start_op, i)) == (
            local_ops(ops, author, start_op).skip(i as int),
            None::<ReadFault>,
        ),
    decreases ops.len() - i,
{
    let all = local_ops(ops, author, start_op);
    if i < ops.len() {
        lemma_read_written_row(ops, author, start_op, i);
        lemma_read_written(ops, author, start_op, i + 1);
        assert(seq![all[i as int]] + all.skip((i + 1) as int) =~= all.skip(i as int));
    } else {
        reveal(iter::read_row);
        assert(all.skip(i as int) =~= Seq::empty());
        assert(columns::action_cells(ops).skip(i as int) =~= Seq::empty());
    }
}

/// The columns of a change give back the operations they were written of, as
/// many as there were, with the indices of their actors within the change and
/// ids from the start on.
pub proof fn written_ops_read_back(
    ops: Seq<OpModel>,
    author: nat,
    c: ChangeOpsColumns,
    data: Seq<u8>,
    start_op: nat,
)
    requires
        holds_parts(c, data, columns::column_parts(ops, author)),
        columns::reads_back(columns::column_parts(ops, author), ops, author),
        forall|j: int| 0 <= j < ops.len() ==> readable(#[trigger] ops[j]),
        mapper::actors_below(ops, u32::MAX as nat),
        columns::preds_from(ops, 0).len() <= u32::MAX,
        start_op + ops.len() <= u32::MAX + 1,
    ensures
        iter::ops_of(c.raw_columns(), data, start_op) == (
            local_ops(ops, author, start_op),
            None::<ReadFault>,
        ),
{
    let parts = columns::column_parts(ops, author);
    lemma_rows_of_columns(c, data, start_op, parts);
    let r = written_rows(ops, author, start_op, 0);
    let all = local_ops(ops, author, start_op);
    assert(all.skip(0) =~= all);
    lemma_left_all(columns::obj_actor_cells(ops, author));
    lemma_left_all(columns::obj_ctr_cells(ops));
    lemma_left_all(columns::key_actor_cells(ops, author));
    lemma_left_all(columns::key_ctr_cells(ops));
    lemma_left_all(columns::key_str_cells(ops));
    lemma_left_all(columns::mark_name_cells(ops));
    assert(left_bools(columns::expand_cells(ops), 0) =~= cells::unless_false(
        columns::expand_cells(ops),
    ));
    assert(columns::insert_cells(ops).skip(0) =~= columns::insert_cells(ops));
    assert(columns::action_cells(ops).skip(0) =~= columns::action_cells(ops));
    assert(columns::meta_cells(ops).skip(0) =~= columns::meta_cells(ops));
    assert(columns::pred_count_cells(ops).skip(0) =~= columns::pred_count_cells(ops));
    assert(rows_of_parts(parts, start_op) == r);
    lemma_read_written(ops, author, start_op, 0);
}

proof fn lemma_left_all<V>(cells: Seq<Option<V>>)
    ensures
        left(cells, 0) == cells::unless_null(cells),
{
    assert(cells.skip(0) =~= cells);
}

// The change is read back.

/// The operations of a built change are those it was built of, with the indices
/// of their actors within the change and ids from its start on.
pub proof fn built_ops_read_back(
    ops: Seq<OpModel>,
    meta: MetadataModel,
    hashes: Seq<Seq<u8>>,
    m: MapperModel,
)
    requires
        super::columns_read_back(ops, meta.actor),
        super::buildable(ops, meta, hashes, m.actors.len()),
        forall|j: int| 0 <= j < ops.len() ==> readable(#[trigger] ops[j]),
        ops.len() > 0 ==> ops[0].id.counter + ops.len() <= u32::MAX + 1,
        super::built_change(ops, meta, hashes, m).bytes.len() <= usize::MAX,
    ensures
        super::built_change(ops, meta, hashes, m).ops() == (
            local_ops(ops, meta.actor, super::first_counter(ops, meta.max_op) as nat),
            None::<ReadFault>,
        ),
{
    let change = super::built_change(ops, meta, hashes, m);
    let start_op = super::first_counter(ops, meta.max_op) as nat;
    let data = super::op_data(ops, meta.actor);
    let c = super::op_columns(ops, meta.actor);
    lemma_built_ranges(ops, meta, hashes, m);
    if ops.len() == 0 {
        let parts = Seq::new(14, |i: int| Seq::<u8>::empty());
        assert forall|i: int| 0 <= i < 14 implies data.subrange(
            (#[trigger] c.ranges()[i]).start as int,
            c.ranges()[i].end as int,
        ) == parts[i] by {
            assert(data.subrange(0, 0) =~= Seq::empty());
        }
        lemma_rows_of_columns(c, data, start_op, parts);
        runs::lemma_framed_front(ItemKind::Uint, Seq::empty());
        cells::lemma_framed_uint_col(Seq::empty());
        let rows = rows_of_parts(parts, start_op);
        reveal(iter::read_row);
        assert(rows.action.cells =~= Seq::empty());
        assert(local_ops(ops, meta.actor, start_op) =~= Seq::empty());
    } else {
        let parts = columns::column_parts(ops, meta.actor);
        assert forall|i: int| 0 <= i < 14 implies #[trigger] c.ranges()[i] == columns::part_range(
            parts,
            i,
        ) by {}
        assert forall|i: int| 0 <= i < 14 implies data.subrange(
            (#[trigger] c.ranges()[i]).start as int,
            c.ranges()[i].end as int,
        ) == parts[i] by {
            parse::lemma_concat_part(parts, i);
        }
        columns::lemma_columns_of(parts);
        parse::lemma_concat_part(parts, 8);
        parse::lemma_concat_part(parts, 10);
        parse::lemma_concat_part(parts, 12);
        parse::lemma_concat_part(parts, 13);
        assert(mapper::actors_below(ops, u32::MAX as nat)) by {
            assert forall|a: nat| #[trigger] mapper::mentioned(ops, a) implies a < u32::MAX by {}
        }
        written_ops_read_back(ops, meta.actor, c, data, start_op);
    }
}

/// The extra bytes of a built change are those it was built with, and its bytes
/// end with them.
pub proof fn built_extra(
    ops: Seq<OpModel>,
    meta: MetadataModel,
    hashes: Seq<Seq<u8>>,
    m: MapperModel,
)
    requires
        super::built_change(ops, meta, hashes, m).bytes.len() <= usize::MAX,
    ensures
        ({
            let change = super::built_change(ops, meta, hashes, m);
            &&& change.extra() == meta.extra
            &&& change.bytes.skip(change.bytes.len() - meta.extra.len()) == meta.extra
        }),
{
    let change = super::built_change(ops, meta, hashes, m);
    lemma_built_ranges(ops, meta, hashes, m);
    assert(change.bytes.skip(change.bytes.len() - meta.extra.len()) =~= change.extra());
}

/// The body of a built change is what it was built of.
pub proof fn built_body_bytes(
    ops: Seq<OpModel>,
    meta: MetadataModel,
    hashes: Seq<Seq<u8>>,
    m: MapperModel,
)
    requires
        super::built_change(ops, meta, hashes, m).bytes.len() <= usize::MAX,
    ensures
        super::built_change(ops, meta, hashes, m).body() == super::built_data(
            ops,
            meta,
            hashes,
            m,
        ),
{
    lemma_built_ranges(ops, meta, hashes, m);
}

/// Where the columns and the extra bytes of a built change stand.
proof fn lemma_built_ranges(
    ops: Seq<OpModel>,
    meta: MetadataModel,
    hashes: Seq<Seq<u8>>,
    m: MapperModel,
)
    requires
        super::built_change(ops, meta, hashes, m).bytes.len() <= usize::MAX,
    ensures
        ({
            let change = super::built_change(ops, meta, hashes, m);
            let body = super::built_body(ops, meta, hashes, m);
            let cols = super::op_data(ops, meta.actor);
            let data = super::built_data(ops, meta, hashes, m);
            &&& change.column_bytes() == cols
            &&& change.extra() == meta.extra
            &&& change.body() == data
            &&& data == stored::body_bytes(body, cols + meta.extra)
            &&& change.ops_data.start == change.bytes.len() - cols.len() - meta.extra.len()
            &&& change.ops_data.end == change.bytes.len() - meta.extra.len()
            &&& change.extra_bytes.start == change.ops_data.end
            &&& change.extra_bytes.end == change.bytes.len()
            &&& change.header.size + data.len() == change.bytes.len()
            &&& cols.len() <= usize::MAX
        }),
{
    let change = super::built_change(ops, meta, hashes, m);
    let body = super::built_body(ops, meta, hashes, m);
    let cols = super::op_data(ops, meta.actor);
    let data = super::built_data(ops, meta, hashes, m);
    let rest = cols + meta.extra;
    let head = stored::body_bytes(body, Seq::empty());
    lemma_body_bytes_split(body, rest);
    assert(data == head + rest);
    let front = chunk::header_bytes(change.header.checksum, ChunkType::Change, data.len());
    assert(change.bytes == front + data);
    assert(change.bytes =~= front + head + cols + meta.extra);
    assert(change.column_bytes() =~= cols);
    assert(change.extra() =~= meta.extra);
    assert(change.body() =~= data);
}

/// What follows a body does not change it.
proof fn lemma_body_bytes_split(b: Body, rest: Seq<u8>)
    ensures
        stored::body_bytes(b, rest) == stored::body_bytes(b, Seq::empty()) + rest,
{
    let none = Seq::<u8>::empty();
    let p1 = leb::uleb_bytes(b.dependencies.len());
    let p2 = parse::concat(b.dependencies);
    let p3 = parse::prefixed(b.actor);
    let p4 = leb::uleb_bytes(b.seq as nat);
    let p5 = leb::uleb_bytes(b.start_op as nat);
    let p6 = leb::sleb_bytes(b.timestamp as int);
    let p7 = parse::prefixed(text::text_bytes(b.message));
    let p8 = leb::uleb_bytes(b.other_actors.len());
    let p9 = parse::concat_prefixed(b.other_actors);
    let p10 = storage_columns::manifest(b.columns);
    let e10 = p10 + none;
    let e9 = p9 + e10;
    let e8 = p8 + e9;
    let e7 = p7 + e8;
    let e6 = p6 + e7;
    let e5 = p5 + e6;
    let e4 = p4 + e5;
    let e3 = p3 + e4;
    let e2 = p2 + e3;
    assert(none + rest =~= rest);
    parse::lemma_add_assoc(p10, none, rest);
    parse::lemma_add_assoc(p9, e10, rest);
    parse::lemma_add_assoc(p8, e9, rest);
    parse::lemma_add_assoc(p7, e8, rest);
    parse::lemma_add_assoc(p6, e7, rest);
    parse::lemma_add_assoc(p5, e6, rest);
    parse::lemma_add_assoc(p4, e5, rest);
    parse::lemma_add_assoc(p3, e4, rest);
    parse::lemma_add_assoc(p2, e3, rest);
    parse::lemma_add_assoc(p1, e2, rest);
}

/// A change that was built, as it is parsed: an empty message is none, and no
/// operation has been read yet.
pub open spec fn reparsed(change: ChangeModel) -> ChangeModel {
    ChangeModel {
        message: match change.message {
            Some(s) => if s.len() == 0 {
                None
            } else {
                Some(s)
            },
            None => None,
        },
        num_ops: 0,
        ..change
    }
}

/// What holds of the names and hashes of every change that was built: they can
/// be counted in 64 bits.
pub open spec fn countable(body: Body) -> bool {
    &&& body.dependencies.len() <= u64::MAX
    &&& forall|i: int|
        0 <= i < body.dependencies.len() ==> (#[trigger] body.dependencies[i]).len() == 32
    &&& body.actor.len() <= u64::MAX
    &&& text::text_bytes(body.message).len() <= u64::MAX
    &&& body.other_actors.len() <= u64::MAX
    &&& forall|i: int|
        0 <= i < body.other_actors.len() ==> (#[trigger] body.other_actors[i]).len() <= u64::MAX
}

/// The bytes of a built change are parsed to that change.
pub proof fn built_change_parses(
    ops: Seq<OpModel>,
    meta: MetadataModel,
    hashes: Seq<Seq<u8>>,
    m: MapperModel,
)
    requires
        super::columns_read_back(ops, meta.actor),
        super::buildable(ops, meta, hashes, m.actors.len()),
        countable(super::built_body(ops, meta, hashes, m)),
        super::built_change(ops, meta, hashes, m).bytes.len() <= usize::MAX,
    ensures
        ({
            let change = super::built_change(ops, meta, hashes, m);
            stored::change_parse(change.bytes, change.header.size, change.header) == Ok::<
                _,
                parse::ParseError,
            >(reparsed(change))
        }),
{
    let change = super::built_change(ops, meta, hashes, m);
    let body = super::built_body(ops, meta, hashes, m);
    let cols = super::op_data(ops, meta.actor);
    let rest = cols + meta.extra;
    lemma_built_ranges(ops, meta, hashes, m);
    super::lemma_op_columns(ops, meta.actor);
    assert(stored::body_writable(body, rest));
    stored::body_parse_of_bytes(body, rest);
    assert(stored::change_of(change.bytes, rest.len(), change.header, body) == reparsed(change));
}

} // verus!
