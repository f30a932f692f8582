//! The columns of a change.
use super::mapper::{self, ActorMapper};
use crate::columnar::encoding::cells;
use crate::columnar::encoding::runs::MAX_CELLS;
use crate::op_set2::op::{self, OpBuilder, OpModel};
use crate::storage::columns::{
    self as storage_columns, ColumnId, ColumnSpec, ColumnType, RawColumn, RawColumns,
};
use crate::storage::parse;
use crate::types::OpId;
use std::ops::Range;
use vstd::prelude::*;

verus! {

// The cells of the columns.

/// An actor within a change.
pub open spec fn local_cell(ops: Seq<OpModel>, author: nat, actor: Option<u32>) -> Option<u64> {
    match actor {
        Some(a) => Some(mapper::local_index(ops, author, a as nat) as u64),
        None => None,
    }
}

pub open spec fn obj_actor_cells(ops: Seq<OpModel>, author: nat) -> Seq<Option<u64>> {
    Seq::new(ops.len(), |i: int| local_cell(ops, author, ops[i].obj_actor()))
}

pub open spec fn obj_ctr_cells(ops: Seq<OpModel>) -> Seq<Option<u64>> {
    Seq::new(ops.len(), |i: int| ops[i].obj_ctr())
}

pub open spec fn key_actor_cells(ops: Seq<OpModel>, author: nat) -> Seq<Option<u64>> {
    Seq::new(ops.len(), |i: int| local_cell(ops, author, ops[i].key_actor()))
}

pub open spec fn key_ctr_cells(ops: Seq<OpModel>) -> Seq<Option<i64>> {
    Seq::new(ops.len(), |i: int| ops[i].key_ctr())
}

pub open spec fn key_str_cells(ops: Seq<OpModel>) -> Seq<Option<Seq<char>>> {
    Seq::new(ops.len(), |i: int| ops[i].key_str())
}

pub open spec fn insert_cells(ops: Seq<OpModel>) -> Seq<bool> {
    Seq::new(ops.len(), |i: int| ops[i].insert)
}

pub open spec fn action_cells(ops: Seq<OpModel>) -> Seq<Option<u64>> {
    Seq::new(ops.len(), |i: int| Some(ops[i].action.spec_code()))
}

pub open spec fn meta_cells(ops: Seq<OpModel>) -> Seq<Option<u64>> {
    Seq::new(ops.len(), |i: int| Some(ops[i].value_meta()))
}

pub open spec fn pred_count_cells(ops: Seq<OpModel>) -> Seq<Option<u64>> {
    Seq::new(ops.len(), |i: int| Some(ops[i].pred.len() as u64))
}

pub open spec fn expand_cells(ops: Seq<OpModel>) -> Seq<bool> {
    Seq::new(ops.len(), |i: int| ops[i].expand)
}

pub open spec fn mark_name_cells(ops: Seq<OpModel>) -> Seq<Option<Seq<char>>> {
    Seq::new(ops.len(), |i: int| ops[i].mark_name)
}

/// The predecessors of the operations from the `from`-th on, one behind the
/// other.
pub open spec fn preds_from(ops: Seq<OpModel>, from: nat) -> Seq<OpId>
    decreases ops.len() - from,
{
    if from < ops.len() {
        ops[from as int].pred + preds_from(ops, from + 1)
    } else {
        Seq::empty()
    }
}

/// The bytes of the values of the operations from the `from`-th on, one behind
/// the other.
pub open spec fn values_from(ops: Seq<OpModel>, from: nat) -> Seq<u8>
    decreases ops.len() - from,
{
    if from < ops.len() {
        ops[from as int].value.raw() + values_from(ops, from + 1)
    } else {
        Seq::empty()
    }
}

pub open spec fn pred_actor_cells(ops: Seq<OpModel>, author: nat, preds: Seq<OpId>) -> Seq<
    Option<u64>,
> {
    Seq::new(preds.len(), |i: int| local_cell(ops, author, Some(preds[i].actor)))
}

pub open spec fn pred_ctr_cells(preds: Seq<OpId>) -> Seq<Option<i64>> {
    Seq::new(preds.len(), |i: int| Some(preds[i].counter as i64))
}

/// The bytes of the columns, in order.
pub open spec fn column_parts(ops: Seq<OpModel>, author: nat) -> Seq<Seq<u8>> {
    let preds = preds_from(ops, 0);
    seq![
        cells::uint_bytes_unless_null(obj_actor_cells(ops, author)),
        cells::uint_bytes_unless_null(obj_ctr_cells(ops)),
        cells::uint_bytes_unless_null(key_actor_cells(ops, author)),
        cells::delta_bytes_unless_null(key_ctr_cells(ops)),
        cells::text_bytes_unless_null(key_str_cells(ops)),
        cells::bool_bytes(insert_cells(ops)),
        cells::uint_bytes(action_cells(ops)),
        cells::uint_bytes(meta_cells(ops)),
        values_from(ops, 0),
        cells::uint_bytes(pred_count_cells(ops)),
        cells::uint_bytes(pred_actor_cells(ops, author, preds)),
        cells::delta_bytes(pred_ctr_cells(preds)),
        cells::bool_bytes_unless_false(expand_cells(ops)),
        cells::text_bytes_unless_null(mark_name_cells(ops)),
    ]
}

/// What is read of the bytes of the columns are the cells they were written
/// of, and a column is left out where it has nothing to say.
pub open spec fn reads_back(parts: Seq<Seq<u8>>, ops: Seq<OpModel>, author: nat) -> bool {
    let preds = preds_from(ops, 0);
    &&& parts.len() == 14
    &&& cells::uint_col(parts[0]) == sound(cells::unless_null(obj_actor_cells(ops, author)))
    &&& cells::uint_col(parts[1]) == sound(cells::unless_null(obj_ctr_cells(ops)))
    &&& cells::uint_col(parts[2]) == sound(cells::unless_null(key_actor_cells(ops, author)))
    &&& cells::delta_col(parts[3]) == sound(cells::unless_null(key_ctr_cells(ops)))
    &&& cells::text_col(parts[4]) == sound(cells::unless_null(key_str_cells(ops)))
    &&& cells::bool_col(parts[5]) == sound(insert_cells(ops))
    &&& cells::uint_col(parts[6]) == sound(action_cells(ops))
    &&& cells::uint_col(parts[7]) == sound(meta_cells(ops))
    &&& parts[8] == values_from(ops, 0)
    &&& cells::uint_col(parts[9]) == sound(pred_count_cells(ops))
    &&& cells::uint_col(parts[10]) == sound(pred_actor_cells(ops, author, preds))
    &&& cells::delta_col(parts[11]) == sound(pred_ctr_cells(preds))
    &&& cells::bool_col(parts[12]) == sound(cells::unless_false(expand_cells(ops)))
    &&& cells::text_col(parts[13]) == sound(cells::unless_null(mark_name_cells(ops)))
    &&& left_out(parts, ops, author)
}

/// Which columns have no bytes: those of ids, keys and mark names where every
/// cell is null, that of `expand` where every cell is `false`, and those of
/// predecessors where there are none. The others have none only where there are
/// no operations.
pub open spec fn left_out(parts: Seq<Seq<u8>>, ops: Seq<OpModel>, author: nat) -> bool {
    &&& parts[0].len() == 0 <==> cells::all_null(obj_actor_cells(ops, author))
    &&& parts[1].len() == 0 <==> cells::all_null(obj_ctr_cells(ops))
    &&& parts[2].len() == 0 <==> cells::all_null(key_actor_cells(ops, author))
    &&& parts[3].len() == 0 <==> cells::all_null(key_ctr_cells(ops))
    &&& parts[4].len() == 0 <==> cells::all_null(key_str_cells(ops))
    &&& parts[5].len() > 0
    &&& parts[6].len() == 0 <==> ops.len() == 0
    &&& parts[7].len() == 0 <==> ops.len() == 0
    &&& parts[9].len() == 0 <==> ops.len() == 0
    &&& parts[10].len() == 0 <==> preds_from(ops, 0).len() == 0
    &&& parts[11].len() == 0 <==> preds_from(ops, 0).len() == 0
    &&& parts[12].len() == 0 <==> cells::all_false(expand_cells(ops))
    &&& parts[13].len() == 0 <==> cells::all_null(mark_name_cells(ops))
}

/// A column of these cells and nothing else.
pub open spec fn sound<V>(cells: Seq<V>) -> cells::Col<V> {
    cells::Col { cells, fault: None }
}

/// Where the columns of a change stand.
#[derive(Debug, PartialEq)]
pub struct ChangeOpsColumns {
    pub obj_actor: Range<usize>,
    pub obj_ctr: Range<usize>,
    pub key_actor: Range<usize>,
    pub key_ctr: Range<usize>,
    pub key_str: Range<usize>,
    pub insert: Range<usize>,
    pub action: Range<usize>,
    pub value_meta: Range<usize>,
    pub value: Range<usize>,
    pub pred_count: Range<usize>,
    pub pred_actor: Range<usize>,
    pub pred_ctr: Range<usize>,
    pub expand: Range<usize>,
    pub mark_name: Range<usize>,
}

impl ChangeOpsColumns {
    /// The ranges, in order.
    pub open spec fn ranges(self) -> Seq<Range<usize>> {
        seq![
            self.obj_actor,
            self.obj_ctr,
            self.key_actor,
            self.key_ctr,
            self.key_str,
            self.insert,
            self.action,
            self.value_meta,
            self.value,
            self.pred_count,
            self.pred_actor,
            self.pred_ctr,
            self.expand,
            self.mark_name,
        ]
    }

    /// The columns stand where `parts` do behind `base` other bytes.
    pub open spec fn laid_out(self, parts: Seq<Seq<u8>>, base: nat) -> bool {
        &&& parts.len() == 14
        &&& forall|i: int|
            0 <= i < 14 ==> {
                &&& (#[trigger] self.ranges()[i]).start == base + parse::concat(parts.take(i)).len()
                &&& self.ranges()[i].end == base + parse::concat(parts.take(i + 1)).len()
            }
    }
}

impl ChangeOpsColumns {
    /// Which columns of some operations are empty: that of an optional field
    /// where no operation has the field, that of `expand` where none expands,
    /// and those of the predecessors where there are none.
    pub open spec fn leaves_out(self, ops: Seq<OpModel>) -> bool {
        &&& is_empty(self.obj_actor) <==> (forall|i: int|
            0 <= i < ops.len() ==> (#[trigger] ops[i]).obj_actor() is None)
        &&& is_empty(self.obj_ctr) <==> (forall|i: int|
            0 <= i < ops.len() ==> (#[trigger] ops[i]).obj_ctr() is None)
        &&& is_empty(self.key_actor) <==> (forall|i: int|
            0 <= i < ops.len() ==> (#[trigger] ops[i]).key_actor() is None)
        &&& is_empty(self.key_ctr) <==> (forall|i: int|
            0 <= i < ops.len() ==> (#[trigger] ops[i]).key_ctr() is None)
        &&& is_empty(self.key_str) <==> (forall|i: int|
            0 <= i < ops.len() ==> (#[trigger] ops[i]).key_str() is None)
        &&& is_empty(self.mark_name) <==> (forall|i: int|
            0 <= i < ops.len() ==> (#[trigger] ops[i]).mark_name is None)
        &&& is_empty(self.expand) <==> (forall|i: int|
            0 <= i < ops.len() ==> !(#[trigger] ops[i]).expand)
        &&& is_empty(self.pred_actor) <==> (forall|i: int|
            0 <= i < ops.len() ==> (#[trigger] ops[i]).pred.len() == 0)
        &&& is_empty(self.pred_ctr) <==> is_empty(self.pred_actor)
        &&& !is_empty(self.insert)
        &&& !is_empty(self.action)
        &&& !is_empty(self.value_meta)
        &&& !is_empty(self.pred_count)
    }
}

/// The columns of no operations.
pub open spec fn no_columns() -> ChangeOpsColumns {
    let none = Range { start: 0usize, end: 0usize };
    ChangeOpsColumns {
        obj_actor: none,
        obj_ctr: none,
        key_actor: none,
        key_ctr: none,
        key_str: none,
        insert: none,
        action: none,
        value_meta: none,
        value: none,
        pred_count: none,
        pred_actor: none,
        pred_ctr: none,
        expand: none,
        mark_name: none,
    }
}

/// The range of the `i`-th of some parts that stand behind one another.
pub open spec fn part_range(parts: Seq<Seq<u8>>, i: int) -> Range<usize> {
    Range {
        start: parse::concat(parts.take(i)).len() as usize,
        end: parse::concat(parts.take(i + 1)).len() as usize,
    }
}

/// The columns that stand where `parts` do.
pub open spec fn columns_of(parts: Seq<Seq<u8>>) -> ChangeOpsColumns {
    ChangeOpsColumns {
        obj_actor: part_range(parts, 0),
        obj_ctr: part_range(parts, 1),
        key_actor: part_range(parts, 2),
        key_ctr: part_range(parts, 3),
        key_str: part_range(parts, 4),
        insert: part_range(parts, 5),
        action: part_range(parts, 6),
        value_meta: part_range(parts, 7),
        value: part_range(parts, 8),
        pred_count: part_range(parts, 9),
        pred_actor: part_range(parts, 10),
        pred_ctr: part_range(parts, 11),
        expand: part_range(parts, 12),
        mark_name: part_range(parts, 13),
    }
}

/// Where the columns stand says which they are.
pub proof fn lemma_laid_out(cols: ChangeOpsColumns, parts: Seq<Seq<u8>>)
    requires
        cols.laid_out(parts, 0),
    ensures
        cols == columns_of(parts),
{
    assert forall|i: int| 0 <= i < 14 implies #[trigger] cols.ranges()[i] == part_range(parts, i) by {
    }
    assert(cols.ranges()[0] == cols.obj_actor);
    assert(cols.ranges()[1] == cols.obj_ctr);
    assert(cols.ranges()[2] == cols.key_actor);
    assert(cols.ranges()[3] == cols.key_ctr);
    assert(cols.ranges()[4] == cols.key_str);
    assert(cols.ranges()[5] == cols.insert);
    assert(cols.ranges()[6] == cols.action);
    assert(cols.ranges()[7] == cols.value_meta);
    assert(cols.ranges()[8] == cols.value);
    assert(cols.ranges()[9] == cols.pred_count);
    assert(cols.ranges()[10] == cols.pred_actor);
    assert(cols.ranges()[11] == cols.pred_ctr);
    assert(cols.ranges()[12] == cols.expand);
    assert(cols.ranges()[13] == cols.mark_name);
}

impl Clone for ChangeOpsColumns {
    fn clone(&self) -> (r: Self)
        ensures
            r == *self,
    {
        ChangeOpsColumns {
            obj_actor: self.obj_actor.start..self.obj_actor.end,
            obj_ctr: self.obj_ctr.start..self.obj_ctr.end,
            key_actor: self.key_actor.start..self.key_actor.end,
            key_ctr: self.key_ctr.start..self.key_ctr.end,
            key_str: self.key_str.start..self.key_str.end,
            insert: self.insert.start..self.insert.end,
            action: self.action.start..self.action.end,
            value_meta: self.value_meta.start..self.value_meta.end,
            value: self.value.start..self.value.end,
            pred_count: self.pred_count.start..self.pred_count.end,
            pred_actor: self.pred_actor.start..self.pred_actor.end,
            pred_ctr: self.pred_ctr.start..self.pred_ctr.end,
            expand: self.expand.start..self.expand.end,
            mark_name: self.mark_name.start..self.mark_name.end,
        }
    }
}

impl Default for ChangeOpsColumns {
    fn default() -> (r: Self)
        ensures
            r == no_columns(),
    {
        ChangeOpsColumns {
            obj_actor: 0..0,
            obj_ctr: 0..0,
            key_actor: 0..0,
            key_ctr: 0..0,
            key_str: 0..0,
            insert: 0..0,
            action: 0..0,
            value_meta: 0..0,
            value: 0..0,
            pred_count: 0..0,
            pred_actor: 0..0,
            pred_ctr: 0..0,
            expand: 0..0,
            mark_name: 0..0,
        }
    }
}

/// What can be written as the columns of a change by `author`, one of `n`
/// actors.
pub open spec fn writable(ops: Seq<OpModel>, author: nat, n: nat) -> bool {
    &&& ops.len() <= MAX_CELLS
    &&& preds_from(ops, 0).len() <= MAX_CELLS
    &&& author < n <= u32::MAX
    &&& mapper::actors_below(ops, n)
    &&& forall|i: int| 0 <= i < ops.len() ==> (#[trigger] ops[i]).value.writable()
}

// The lists of cells.

fn local_actor(mapper: &ActorMapper<'_>, actor: u32) -> (r: u64)
    requires
        mapper@.wf(),
        actor < mapper@.mapping.len(),
        mapper@.mapping[actor as int] is Some,
    ensures
        r == (mapper@.mapping[actor as int]->0).0,
{
    match mapper.mapped(actor as usize) {
        Some(idx) => idx.0 as u64,
        None => 0,
    }
}

proof fn lemma_local_index_fits(ops: Seq<OpModel>, author: nat, n: nat, a: nat)
    requires
        a < n <= u32::MAX,
    ensures
        mapper::local_index(ops, author, a) <= u32::MAX,
{
    mapper::lemma_others_len(ops, author, a);
}

/// An actor of an operation, within the change.
fn remap_opt_actor(
    ops: &[OpBuilder],
    author: usize,
    mapper: &ActorMapper<'_>,
    actor: Option<u32>,
) -> (r: Option<u64>)
    requires
        mapper@.wf(),
        mapper@.maps(op::op_models(ops@), author as nat),
        actor matches Some(a) ==> a < mapper@.actors.len() && mapper::mentioned(
            op::op_models(ops@),
            a as nat,
        ),
    ensures
        r == local_cell(op::op_models(ops@), author as nat, actor),
{
    match actor {
        Some(a) => {
            proof {
                lemma_local_index_fits(
                    op::op_models(ops@),
                    author as nat,
                    mapper@.actors.len(),
                    a as nat,
                );
                assert(mapper@.mapping[a as int] is Some);
            }
            Some(local_actor(mapper, a))
        },
        None => None,
    }
}

fn list_obj_actors(ops: &[OpBuilder], author: usize, mapper: &ActorMapper<'_>) -> (r: Vec<
    Option<u64>,
>)
    requires
        mapper@.wf(),
        mapper@.maps(op::op_models(ops@), author as nat),
        mapper::actors_below(op::op_models(ops@), mapper@.actors.len()),
    ensures
        r@ == obj_actor_cells(op::op_models(ops@), author as nat),
{
    let ghost models = op::op_models(ops@);
    let ghost all = obj_actor_cells(models, author as nat);
    let mut out: Vec<Option<u64>> = Vec::new();
    let mut i: usize = 0;
    while i < ops.len()
        invariant
            i <= ops.len(),
            models == op::op_models(ops@),
            all == obj_actor_cells(models, author as nat),
            mapper@.wf(),
            mapper@.maps(models, author as nat),
            mapper::actors_below(models, mapper@.actors.len()),
            out@ =~= all.take(i as int),
        decreases ops.len() - i,
    {
        let actor = ops[i].obj_actor();
        proof {
            assert(models[i as int] == ops@[i as int]@);
            if actor is Some {
                assert(mapper::mentions(models[i as int], actor->0 as nat));
                assert(mapper::mentioned(models, actor->0 as nat));
            }
        }
        out.push(remap_opt_actor(ops, author, mapper, actor));
        i += 1;
    }
    out
}

fn list_key_actors(ops: &[OpBuilder], author: usize, mapper: &ActorMapper<'_>) -> (r: Vec<
    Option<u64>,
>)
    requires
        mapper@.wf(),
        mapper@.maps(op::op_models(ops@), author as nat),
        mapper::actors_below(op::op_models(ops@), mapper@.actors.len()),
    ensures
        r@ == key_actor_cells(op::op_models(ops@), author as nat),
{
    let ghost models = op::op_models(ops@);
    let ghost all = key_actor_cells(models, author as nat);
    let mut out: Vec<Option<u64>> = Vec::new();
    let mut i: usize = 0;
    while i < ops.len()
        invariant
            i <= ops.len(),
            models == op::op_models(ops@),
            all == key_actor_cells(models, author as nat),
            mapper@.wf(),
            mapper@.maps(models, author as nat),
            mapper::actors_below(models, mapper@.actors.len()),
            out@ =~= all.take(i as int),
        decreases ops.len() - i,
    {
        let actor = ops[i].key_actor();
        proof {
            assert(models[i as int] == ops@[i as int]@);
            if actor is Some {
                assert(mapper::mentions(models[i as int], actor->0 as nat));
                assert(mapper::mentioned(models, actor->0 as nat));
            }
        }
        out.push(remap_opt_actor(ops, author, mapper, actor));
        i += 1;
    }
    out
}

fn list_obj_ctrs(ops: &[OpBuilder]) -> (r: Vec<Option<u64>>)
    ensures
        r@ == obj_ctr_cells(op::op_models(ops@)),
{
    let mut out: Vec<Option<u64>> = Vec::new();
    let mut i: usize = 0;
    while i < ops.len()
        invariant
            i <= ops.len(),
            out@ =~= obj_ctr_cells(op::op_models(ops@)).take(i as int),
        decreases ops.len() - i,
    {
        out.push(ops[i].obj_ctr());
        i += 1;
    }
    out
}

fn list_key_ctrs(ops: &[OpBuilder]) -> (r: Vec<Option<i64>>)
    ensures
        r@ == key_ctr_cells(op::op_models(ops@)),
        cells::counters(r@),
{
    let mut out: Vec<Option<i64>> = Vec::new();
    let mut i: usize = 0;
    while i < ops.len()
        invariant
            i <= ops.len(),
            out@ =~= key_ctr_cells(op::op_models(ops@)).take(i as int),
            cells::counters(out@),
        decreases ops.len() - i,
    {
        let ghost before = out@;
        out.push(ops[i].key_ctr());
        assert forall|j: int| 0 <= j < out@.len() implies (#[trigger] out@[j] matches Some(v) ==> 0
            <= v <= u32::MAX) by {
            if j < before.len() {
                assert(out@[j] == before[j]);
            }
        }
        i += 1;
    }
    out
}

fn list_key_strs(ops: &[OpBuilder]) -> (r: Vec<Option<String>>)
    ensures
        cells::texts(r@) == key_str_cells(op::op_models(ops@)),
{
    let mut out: Vec<Option<String>> = Vec::new();
    let mut i: usize = 0;
    while i < ops.len()
        invariant
            i <= ops.len(),
            cells::texts(out@) =~= key_str_cells(op::op_models(ops@)).take(i as int),
        decreases ops.len() - i,
    {
        let ghost before = out@;
        out.push(ops[i].key_str());
        assert(cells::texts(out@) =~= cells::texts(before).push(cells::opt_text(out@[i as int])));
        assert(ops@[i as int]@ == op::op_models(ops@)[i as int]);
        i += 1;
    }
    out
}

fn list_inserts(ops: &[OpBuilder]) -> (r: Vec<bool>)
    ensures
        r@ == insert_cells(op::op_models(ops@)),
{
    let mut out: Vec<bool> = Vec::new();
    let mut i: usize = 0;
    while i < ops.len()
        invariant
            i <= ops.len(),
            out@ =~= insert_cells(op::op_models(ops@)).take(i as int),
        decreases ops.len() - i,
    {
        out.push(ops[i].insert);
        i += 1;
    }
    out
}

fn list_actions(ops: &[OpBuilder]) -> (r: Vec<Option<u64>>)
    ensures
        r@ == action_cells(op::op_models(ops@)),
{
    let mut out: Vec<Option<u64>> = Vec::new();
    let mut i: usize = 0;
    while i < ops.len()
        invariant
            i <= ops.len(),
            out@ =~= action_cells(op::op_models(ops@)).take(i as int),
        decreases ops.len() - i,
    {
        out.push(Some(ops[i].action.code()));
        i += 1;
    }
    out
}

fn list_metas(ops: &[OpBuilder]) -> (r: Vec<Option<u64>>)
    requires
        forall|i: int|
            0 <= i < ops@.len() ==> (#[trigger] op::op_models(ops@)[i]).value.writable(),
    ensures
        r@ == meta_cells(op::op_models(ops@)),
{
    let mut out: Vec<Option<u64>> = Vec::new();
    let mut i: usize = 0;
    while i < ops.len()
        invariant
            i <= ops.len(),
            forall|i: int|
                0 <= i < ops@.len() ==> (#[trigger] op::op_models(ops@)[i]).value.writable(),
            out@ =~= meta_cells(op::op_models(ops@)).take(i as int),
        decreases ops.len() - i,
    {
        assert(op::op_models(ops@)[i as int].value.writable());
        out.push(Some(ops[i].value_meta()));
        i += 1;
    }
    out
}

fn list_pred_counts(ops: &[OpBuilder]) -> (r: Vec<Option<u64>>)
    ensures
        r@ == pred_count_cells(op::op_models(ops@)),
{
    let mut out: Vec<Option<u64>> = Vec::new();
    let mut i: usize = 0;
    while i < ops.len()
        invariant
            i <= ops.len(),
            out@ =~= pred_count_cells(op::op_models(ops@)).take(i as int),
        decreases ops.len() - i,
    {
        out.push(Some(ops[i].pred.len() as u64));
        i += 1;
    }
    out
}

fn list_preds(ops: &[OpBuilder]) -> (r: Vec<OpId>)
    ensures
        r@ == preds_from(op::op_models(ops@), 0),
{
    let ghost models = op::op_models(ops@);
    let mut out: Vec<OpId> = Vec::new();
    let mut i: usize = 0;
    assert(out@ + preds_from(models, 0) =~= preds_from(models, 0));
    while i < ops.len()
        invariant
            i <= ops.len(),
            models == op::op_models(ops@),
            out@ + preds_from(models, i as nat) == preds_from(models, 0),
        decreases ops.len() - i,
    {
        let ghost before = out@;
        let pred = &ops[i].pred;
        assert(models[i as int].pred == pred@);
        let mut j: usize = 0;
        while j < pred.len()
            invariant
                j <= pred.len(),
                out@ =~= before + pred@.take(j as int),
            decreases pred.len() - j,
        {
            out.push(pred[j]);
            j += 1;
        }
        proof {
            assert(out@ =~= before + pred@);
            assert(before + (pred@ + preds_from(models, (i + 1) as nat)) =~= out@ + preds_from(
                models,
                (i + 1) as nat,
            ));
        }
        i += 1;
    }
    assert(out@ + Seq::<OpId>::empty() =~= out@);
    out
}

/// A predecessor is one of some operation.
proof fn lemma_preds_mentioned(ops: Seq<OpModel>, from: nat, i: int)
    requires
        0 <= i < preds_from(ops, from).len(),
    ensures
        mapper::mentioned(ops, preds_from(ops, from)[i].actor as nat),
    decreases ops.len() - from,
{
    let pred = ops[from as int].pred;
    if i < pred.len() {
        let a = preds_from(ops, from)[i].actor as nat;
        assert(pred[i].actor == a);
        assert(mapper::mentions(ops[from as int], a));
    } else {
        lemma_preds_mentioned(ops, from + 1, i - pred.len());
    }
}

fn list_pred_actors(
    ops: &[OpBuilder],
    author: usize,
    mapper: &ActorMapper<'_>,
    preds: &Vec<OpId>,
) -> (r: Vec<Option<u64>>)
    requires
        mapper@.wf(),
        mapper@.maps(op::op_models(ops@), author as nat),
        mapper::actors_below(op::op_models(ops@), mapper@.actors.len()),
        preds@ == preds_from(op::op_models(ops@), 0),
    ensures
        r@ == pred_actor_cells(op::op_models(ops@), author as nat, preds@),
{
    let ghost models = op::op_models(ops@);
    let ghost all = pred_actor_cells(models, author as nat, preds@);
    let mut out: Vec<Option<u64>> = Vec::new();
    let mut i: usize = 0;
    while i < preds.len()
        invariant
            i <= preds.len(),
            models == op::op_models(ops@),
            preds@ == preds_from(models, 0),
            all == pred_actor_cells(models, author as nat, preds@),
            mapper@.wf(),
            mapper@.maps(models, author as nat),
            mapper::actors_below(models, mapper@.actors.len()),
            out@ =~= all.take(i as int),
        decreases preds.len() - i,
    {
        proof {
            lemma_preds_mentioned(models, 0, i as int);
        }
        out.push(remap_opt_actor(ops, author, mapper, Some(preds[i].actor)));
        i += 1;
    }
    out
}

fn list_pred_ctrs(preds: &Vec<OpId>) -> (r: Vec<Option<i64>>)
    ensures
        r@ == pred_ctr_cells(preds@),
        cells::counters(r@),
{
    let mut out: Vec<Option<i64>> = Vec::new();
    let mut i: usize = 0;
    while i < preds.len()
        invariant
            i <= preds.len(),
            out@ =~= pred_ctr_cells(preds@).take(i as int),
            cells::counters(out@),
        decreases preds.len() - i,
    {
        let ghost before = out@;
        out.push(Some(preds[i].icounter()));
        assert forall|j: int| 0 <= j < out@.len() implies (#[trigger] out@[j] matches Some(v) ==> 0
            <= v <= u32::MAX) by {
            if j < before.len() {
                assert(out@[j] == before[j]);
            }
        }
        i += 1;
    }
    out
}

fn list_expands(ops: &[OpBuilder]) -> (r: Vec<bool>)
    ensures
        r@ == expand_cells(op::op_models(ops@)),
{
    let mut out: Vec<bool> = Vec::new();
    let mut i: usize = 0;
    while i < ops.len()
        invariant
            i <= ops.len(),
            out@ =~= expand_cells(op::op_models(ops@)).take(i as int),
        decreases ops.len() - i,
    {
        out.push(ops[i].expand);
        i += 1;
    }
    out
}

fn list_mark_names(ops: &[OpBuilder]) -> (r: Vec<Option<String>>)
    ensures
        cells::texts(r@) == mark_name_cells(op::op_models(ops@)),
{
    let mut out: Vec<Option<String>> = Vec::new();
    let mut i: usize = 0;
    while i < ops.len()
        invariant
            i <= ops.len(),
            cells::texts(out@) =~= mark_name_cells(op::op_models(ops@)).take(i as int),
        decreases ops.len() - i,
    {
        let name = match &ops[i].mark_name {
            Some(name) => Some(name.clone()),
            None => None,
        };
        let ghost before = out@;
        out.push(name);
        assert(cells::texts(out@) =~= cells::texts(before).push(cells::opt_text(name)));
        assert(ops@[i as int]@ == op::op_models(ops@)[i as int]);
        i += 1;
    }
    out
}

/// Appends the bytes of the values.
fn write_values(ops: &[OpBuilder], data: &mut Vec<u8>) -> (r: Range<usize>)
    ensures
        final(data)@ == old(data)@ + values_from(op::op_models(ops@), 0),
        r.start == old(data)@.len() && r.end == final(data)@.len(),
{
    let ghost models = op::op_models(ops@);
    let start: usize = data.len();
    let mut i: usize = 0;
    while i < ops.len()
        invariant
            i <= ops.len(),
            models == op::op_models(ops@),
            data@ + values_from(models, i as nat) == old(data)@ + values_from(models, 0),
        decreases ops.len() - i,
    {
        let ghost before = data@;
        ops[i].value.write_raw(data);
        proof {
            assert(models[i as int] == ops@[i as int]@);
            parse::lemma_add_assoc(
                before,
                models[i as int].value.raw(),
                values_from(models, (i + 1) as nat),
            );
        }
        i += 1;
    }
    assert(data@ + Seq::<u8>::empty() =~= data@);
    start..data.len()
}

fn write_obj_actor(
    data: &mut Vec<u8>,
    ops: &[OpBuilder],
    author: usize,
    mapper: &ActorMapper<'_>,
) -> (r: Range<usize>)
    requires
        ops@.len() <= MAX_CELLS,
        mapper@.wf(),
        mapper@.maps(op::op_models(ops@), author as nat),
        mapper::actors_below(op::op_models(ops@), mapper@.actors.len()),
    ensures
        final(data)@ == old(data)@ + cells::uint_bytes_unless_null(obj_actor_cells(op::op_models(ops@), author as nat)),
        r.start == old(data)@.len() && r.end == final(data)@.len(),
        cells::uint_col(cells::uint_bytes_unless_null(obj_actor_cells(op::op_models(ops@), author as nat))) == sound(cells::unless_null(obj_actor_cells(op::op_models(ops@), author as nat))),
        cells::uint_bytes_unless_null(obj_actor_cells(op::op_models(ops@), author as nat)).len() == 0 <==> cells::all_null(obj_actor_cells(op::op_models(ops@), author as nat)),
{
    let ghost before = data@;
    let list = list_obj_actors(ops, author, mapper);
    let r: Range<usize> = cells::write_uints_unless_null(data, list.as_slice());
    proof {
        let part = cells::uint_bytes_unless_null(obj_actor_cells(op::op_models(ops@), author as nat));
        assert(data@.skip(before.len() as int) =~= part);
        cells::lemma_framed_uint_col(part);
    }
    r
}

fn write_obj_ctr(
    data: &mut Vec<u8>,
    ops: &[OpBuilder],
) -> (r: Range<usize>)
    requires
        ops@.len() <= MAX_CELLS,
    ensures
        final(data)@ == old(data)@ + cells::uint_bytes_unless_null(obj_ctr_cells(op::op_models(ops@))),
        r.start == old(data)@.len() && r.end == final(data)@.len(),
        cells::uint_col(cells::uint_bytes_unless_null(obj_ctr_cells(op::op_models(ops@)))) == sound(cells::unless_null(obj_ctr_cells(op::op_models(ops@)))),
        cells::uint_bytes_unless_null(obj_ctr_cells(op::op_models(ops@))).len() == 0 <==> cells::all_null(obj_ctr_cells(op::op_models(ops@))),
{
    let ghost before = data@;
    let list = list_obj_ctrs(ops);
    let r: Range<usize> = cells::write_uints_unless_null(data, list.as_slice());
    proof {
        let part = cells::uint_bytes_unless_null(obj_ctr_cells(op::op_models(ops@)));
        assert(data@.skip(before.len() as int) =~= part);
        cells::lemma_framed_uint_col(part);
    }
    r
}

fn write_key_actor(
    data: &mut Vec<u8>,
    ops: &[OpBuilder],
    author: usize,
    mapper: &ActorMapper<'_>,
) -> (r: Range<usize>)
    requires
        ops@.len() <= MAX_CELLS,
        mapper@.wf(),
        mapper@.maps(op::op_models(ops@), author as nat),
        mapper::actors_below(op::op_models(ops@), mapper@.actors.len()),
    ensures
        final(data)@ == old(data)@ + cells::uint_bytes_unless_null(key_actor_cells(op::op_models(ops@), author as nat)),
        r.start == old(data)@.len() && r.end == final(data)@.len(),
        cells::uint_col(cells::uint_bytes_unless_null(key_actor_cells(op::op_models(ops@), author as nat))) == sound(cells::unless_null(key_actor_cells(op::op_models(ops@), author as nat))),
        cells::uint_bytes_unless_null(key_actor_cells(op::op_models(ops@), author as nat)).len() == 0 <==> cells::all_null(key_actor_cells(op::op_models(ops@), author as nat)),
{
    let ghost before = data@;
    let list = list_key_actors(ops, author, mapper);
    let r: Range<usize> = cells::write_uints_unless_null(data, list.as_slice());
    proof {
        let part = cells::uint_bytes_unless_null(key_actor_cells(op::op_models(ops@), author as nat));
        assert(data@.skip(before.len() as int) =~= part);
        cells::lemma_framed_uint_col(part);
    }
    r
}

fn write_key_ctr(
    data: &mut Vec<u8>,
    ops: &[OpBuilder],
) -> (r: Range<usize>)
    requires
        ops@.len() <= MAX_CELLS,
    ensures
        final(data)@ == old(data)@ + cells::delta_bytes_unless_null(key_ctr_cells(op::op_models(ops@))),
        r.start == old(data)@.len() && r.end == final(data)@.len(),
        cells::delta_col(cells::delta_bytes_unless_null(key_ctr_cells(op::op_models(ops@)))) == sound(cells::unless_null(key_ctr_cells(op::op_models(ops@)))),
        cells::delta_bytes_unless_null(key_ctr_cells(op::op_models(ops@))).len() == 0 <==> cells::all_null(key_ctr_cells(op::op_models(ops@))),
{
    let ghost before = data@;
    let list = list_key_ctrs(ops);
    let r: Range<usize> = cells::write_deltas_unless_null(data, list.as_slice());
    proof {
        let part = cells::delta_bytes_unless_null(key_ctr_cells(op::op_models(ops@)));
        assert(data@.skip(before.len() as int) =~= part);
        cells::lemma_framed_delta_col(part);
    }
    r
}

fn write_key_str(
    data: &mut Vec<u8>,
    ops: &[OpBuilder],
) -> (r: Range<usize>)
    requires
        ops@.len() <= MAX_CELLS,
    ensures
        final(data)@ == old(data)@ + cells::text_bytes_unless_null(key_str_cells(op::op_models(ops@))),
        r.start == old(data)@.len() && r.end == final(data)@.len(),
        cells::text_col(cells::text_bytes_unless_null(key_str_cells(op::op_models(ops@)))) == sound(cells::unless_null(key_str_cells(op::op_models(ops@)))),
        cells::text_bytes_unless_null(key_str_cells(op::op_models(ops@))).len() == 0 <==> cells::all_null(key_str_cells(op::op_models(ops@))),
{
    let ghost before = data@;
    let list = list_key_strs(ops);
    assert(cells::texts(list@).len() == list@.len());
    let r: Range<usize> = cells::write_texts_unless_null(data, list.as_slice());
    proof {
        let part = cells::text_bytes_unless_null(key_str_cells(op::op_models(ops@)));
        assert(data@.skip(before.len() as int) =~= part);
        cells::lemma_framed_text_col(part);
    }
    r
}

fn write_insert(
    data: &mut Vec<u8>,
    ops: &[OpBuilder],
) -> (r: Range<usize>)
    requires
        ops@.len() <= MAX_CELLS,
    ensures
        final(data)@ == old(data)@ + cells::bool_bytes(insert_cells(op::op_models(ops@))),
        r.start == old(data)@.len() && r.end == final(data)@.len(),
        cells::bool_col(cells::bool_bytes(insert_cells(op::op_models(ops@)))) == sound(insert_cells(op::op_models(ops@))),
        cells::bool_bytes(insert_cells(op::op_models(ops@))).len() > 0,
{
    let ghost before = data@;
    let list = list_inserts(ops);
    let r: Range<usize> = cells::write_bools(data, list.as_slice());
    proof {
        let part = cells::bool_bytes(insert_cells(op::op_models(ops@)));
        assert(data@.skip(before.len() as int) =~= part);
        cells::lemma_framed_bool_col(part);
    }
    r
}

fn write_action(
    data: &mut Vec<u8>,
    ops: &[OpBuilder],
) -> (r: Range<usize>)
    requires
        ops@.len() <= MAX_CELLS,
    ensures
        final(data)@ == old(data)@ + cells::uint_bytes(action_cells(op::op_models(ops@))),
        r.start == old(data)@.len() && r.end == final(data)@.len(),
        cells::uint_col(cells::uint_bytes(action_cells(op::op_models(ops@)))) == sound(action_cells(op::op_models(ops@))),
        cells::uint_bytes(action_cells(op::op_models(ops@))).len() == 0 <==> ops@.len() == 0,
{
    let ghost before = data@;
    let list = list_actions(ops);
    assert(list@.len() == 0 ==> list@ =~= Seq::empty());
    let r: Range<usize> = cells::write_uints(data, list.as_slice());
    proof {
        let part = cells::uint_bytes(action_cells(op::op_models(ops@)));
        assert(data@.skip(before.len() as int) =~= part);
        cells::lemma_framed_uint_col(part);
    }
    r
}

fn write_value_meta(
    data: &mut Vec<u8>,
    ops: &[OpBuilder],
) -> (r: Range<usize>)
    requires
        ops@.len() <= MAX_CELLS,
        forall|i: int|
            0 <= i < ops@.len() ==> (#[trigger] op::op_models(ops@)[i]).value.writable(),
    ensures
        final(data)@ == old(data)@ + cells::uint_bytes(meta_cells(op::op_models(ops@))),
        r.start == old(data)@.len() && r.end == final(data)@.len(),
        cells::uint_col(cells::uint_bytes(meta_cells(op::op_models(ops@)))) == sound(meta_cells(op::op_models(ops@))),
        cells::uint_bytes(meta_cells(op::op_models(ops@))).len() == 0 <==> ops@.len() == 0,
{
    let ghost before = data@;
    let list = list_metas(ops);
    assert(list@.len() == 0 ==> list@ =~= Seq::empty());
    let r: Range<usize> = cells::write_uints(data, list.as_slice());
    proof {
        let part = cells::uint_bytes(meta_cells(op::op_models(ops@)));
        assert(data@.skip(before.len() as int) =~= part);
        cells::lemma_framed_uint_col(part);
    }
    r
}

fn write_pred_count(
    data: &mut Vec<u8>,
    ops: &[OpBuilder],
) -> (r: Range<usize>)
    requires
        ops@.len() <= MAX_CELLS,
    ensures
        final(data)@ == old(data)@ + cells::uint_bytes(pred_count_cells(op::op_models(ops@))),
        r.start == old(data)@.len() && r.end == final(data)@.len(),
        cells::uint_col(cells::uint_bytes(pred_count_cells(op::op_models(ops@)))) == sound(pred_count_cells(op::op_models(ops@))),
        cells::uint_bytes(pred_count_cells(op::op_models(ops@))).len() == 0 <==> ops@.len() == 0,
{
    let ghost before = data@;
    let list = list_pred_counts(ops);
    assert(list@.len() == 0 ==> list@ =~= Seq::empty());
    let r: Range<usize> = cells::write_uints(data, list.as_slice());
    proof {
        let part = cells::uint_bytes(pred_count_cells(op::op_models(ops@)));
        assert(data@.skip(before.len() as int) =~= part);
        cells::lemma_framed_uint_col(part);
    }
    r
}

fn write_pred_actor(
    data: &mut Vec<u8>,
    ops: &[OpBuilder],
    author: usize,
    mapper: &ActorMapper<'_>,
    preds: &Vec<OpId>,
) -> (r: Range<usize>)
    requires
        preds@.len() <= MAX_CELLS,
        preds@ == preds_from(op::op_models(ops@), 0),
        mapper@.wf(),
        mapper@.maps(op::op_models(ops@), author as nat),
        mapper::actors_below(op::op_models(ops@), mapper@.actors.len()),
    ensures
        final(data)@ == old(data)@ + cells::uint_bytes(pred_actor_cells(op::op_models(ops@), author as nat, preds@)),
        r.start == old(data)@.len() && r.end == final(data)@.len(),
        cells::uint_col(cells::uint_bytes(pred_actor_cells(op::op_models(ops@), author as nat, preds@))) == sound(pred_actor_cells(op::op_models(ops@), author as nat, preds@)),
        cells::uint_bytes(pred_actor_cells(op::op_models(ops@), author as nat, preds@)).len() == 0 <==> preds@.len() == 0,
{
    let ghost before = data@;
    let list = list_pred_actors(ops, author, mapper, preds);
    assert(list@.len() == 0 ==> list@ =~= Seq::empty());
    let r: Range<usize> = cells::write_uints(data, list.as_slice());
    proof {
        let part = cells::uint_bytes(pred_actor_cells(op::op_models(ops@), author as nat, preds@));
        assert(data@.skip(before.len() as int) =~= part);
        cells::lemma_framed_uint_col(part);
    }
    r
}

fn write_pred_ctr(
    data: &mut Vec<u8>,
    preds: &Vec<OpId>,
) -> (r: Range<usize>)
    requires
        preds@.len() <= MAX_CELLS,
    ensures
        final(data)@ == old(data)@ + cells::delta_bytes(pred_ctr_cells(preds@)),
        r.start == old(data)@.len() && r.end == final(data)@.len(),
        cells::delta_col(cells::delta_bytes(pred_ctr_cells(preds@))) == sound(pred_ctr_cells(preds@)),
        cells::delta_bytes(pred_ctr_cells(preds@)).len() == 0 <==> preds@.len() == 0,
{
    let ghost before = data@;
    let list = list_pred_ctrs(preds);
    assert(list@.len() == 0 ==> list@ =~= Seq::empty());
    let r: Range<usize> = cells::write_deltas(data, list.as_slice());
    proof {
        let part = cells::delta_bytes(pred_ctr_cells(preds@));
        assert(data@.skip(before.len() as int) =~= part);
        cells::lemma_framed_delta_col(part);
    }
    r
}

fn write_expand(
    data: &mut Vec<u8>,
    ops: &[OpBuilder],
) -> (r: Range<usize>)
    requires
        ops@.len() <= MAX_CELLS,
    ensures
        final(data)@ == old(data)@ + cells::bool_bytes_unless_false(expand_cells(op::op_models(ops@))),
        r.start == old(data)@.len() && r.end == final(data)@.len(),
        cells::bool_col(cells::bool_bytes_unless_false(expand_cells(op::op_models(ops@)))) == sound(cells::unless_false(expand_cells(op::op_models(ops@)))),
        cells::bool_bytes_unless_false(expand_cells(op::op_models(ops@))).len() == 0 <==> cells::all_false(expand_cells(op::op_models(ops@))),
{
    let ghost before = data@;
    let list = list_expands(ops);
    let r: Range<usize> = cells::write_bools_unless_false(data, list.as_slice());
    proof {
        let part = cells::bool_bytes_unless_false(expand_cells(op::op_models(ops@)));
        assert(data@.skip(before.len() as int) =~= part);
        cells::lemma_framed_bool_col(part);
    }
    r
}

fn write_mark_name(
    data: &mut Vec<u8>,
    ops: &[OpBuilder],
) -> (r: Range<usize>)
    requires
        ops@.len() <= MAX_CELLS,
    ensures
        final(data)@ == old(data)@ + cells::text_bytes_unless_null(mark_name_cells(op::op_models(ops@))),
        r.start == old(data)@.len() && r.end == final(data)@.len(),
        cells::text_col(cells::text_bytes_unless_null(mark_name_cells(op::op_models(ops@)))) == sound(cells::unless_null(mark_name_cells(op::op_models(ops@)))),
        cells::text_bytes_unless_null(mark_name_cells(op::op_models(ops@))).len() == 0 <==> cells::all_null(mark_name_cells(op::op_models(ops@))),
{
    let ghost before = data@;
    let list = list_mark_names(ops);
    assert(cells::texts(list@).len() == list@.len());
    let r: Range<usize> = cells::write_texts_unless_null(data, list.as_slice());
    proof {
        let part = cells::text_bytes_unless_null(mark_name_cells(op::op_models(ops@)));
        assert(data@.skip(before.len() as int) =~= part);
        cells::lemma_framed_text_col(part);
    }
    r
}

/// Parts that are appended one after the other stand behind one another.
proof fn lemma_appended(parts: Seq<Seq<u8>>, states: Seq<Seq<u8>>, k: int)
    requires
        states.len() == parts.len() + 1,
        forall|i: int| 0 <= i < parts.len() ==> #[trigger] states[i + 1] == states[i] + parts[i],
        0 <= k <= parts.len(),
    ensures
        states[k] == states[0] + parse::concat(parts.take(k)),
    decreases k,
{
    if k == 0 {
        assert(states[0] + parse::concat(parts.take(0)) =~= states[0]);
    } else {
        lemma_appended(parts, states, k - 1);
        assert(states[(k - 1) + 1] == states[k - 1] + parts[k - 1]);
        assert(parts.take(k) =~= parts.take(k - 1).push(parts[k - 1]));
        parse::lemma_concat_push(parts.take(k - 1), parts[k - 1]);
        parse::lemma_add_assoc(states[0], parse::concat(parts.take(k - 1)), parts[k - 1]);
    }
}

/// There are no predecessors where no operation has one.
proof fn lemma_no_preds(ops: Seq<OpModel>, from: nat)
    ensures
        preds_from(ops, from).len() == 0 <==> (forall|i: int|
            from <= i < ops.len() ==> (#[trigger] ops[i]).pred.len() == 0),
    decreases ops.len() - from,
{
    if from < ops.len() {
        lemma_no_preds(ops, from + 1);
        assert(preds_from(ops, from).len() == ops[from as int].pred.len() + preds_from(
            ops,
            from + 1,
        ).len());
    }
}

/// A column stands as long as its part is.
proof fn lemma_part_size(c: ChangeOpsColumns, parts: Seq<Seq<u8>>, base: nat, i: int)
    requires
        c.laid_out(parts, base),
        0 <= i < 14,
    ensures
        c.ranges()[i].end - c.ranges()[i].start == parts[i].len(),
{
    assert(parts.take(i + 1) =~= parts.take(i).push(parts[i]));
    parse::lemma_concat_push(parts.take(i), parts[i]);
}

/// The columns that are empty are those with nothing to say.
proof fn lemma_leaves_out(c: ChangeOpsColumns, ops: Seq<OpModel>, author: nat, base: nat)
    requires
        ops.len() > 0,
        c.laid_out(column_parts(ops, author), base),
        left_out(column_parts(ops, author), ops, author),
    ensures
        c.leaves_out(ops),
{
    let parts = column_parts(ops, author);
    assert forall|i: int| 0 <= i < 14 implies (#[trigger] c.ranges()[i]).end - c.ranges()[i].start
        == parts[i].len() by {
        lemma_part_size(c, parts, base, i);
    }
    lemma_no_preds(ops, 0);
    assert(c.ranges()[0] == c.obj_actor);
    assert(c.ranges()[1] == c.obj_ctr);
    assert(c.ranges()[2] == c.key_actor);
    assert(c.ranges()[3] == c.key_ctr);
    assert(c.ranges()[4] == c.key_str);
    assert(c.ranges()[5] == c.insert);
    assert(c.ranges()[6] == c.action);
    assert(c.ranges()[7] == c.value_meta);
    assert(c.ranges()[9] == c.pred_count);
    assert(c.ranges()[10] == c.pred_actor);
    assert(c.ranges()[11] == c.pred_ctr);
    assert(c.ranges()[12] == c.expand);
    assert(c.ranges()[13] == c.mark_name);
    assert(cells::all_null(obj_actor_cells(ops, author)) <==> (forall|i: int|
        0 <= i < ops.len() ==> (#[trigger] ops[i]).obj_actor() is None)) by {
        assert forall|i: int| 0 <= i < ops.len() implies (obj_actor_cells(ops, author)[i] is None <==> (
        #[trigger] ops[i]).obj_actor() is None) by {}
    }
    assert(cells::all_null(obj_ctr_cells(ops)) <==> (forall|i: int|
        0 <= i < ops.len() ==> (#[trigger] ops[i]).obj_ctr() is None)) by {
        assert forall|i: int| 0 <= i < ops.len() implies (obj_ctr_cells(ops)[i] is None <==> (
        #[trigger] ops[i]).obj_ctr() is None) by {}
    }
    assert(cells::all_null(key_actor_cells(ops, author)) <==> (forall|i: int|
        0 <= i < ops.len() ==> (#[trigger] ops[i]).key_actor() is None)) by {
        assert forall|i: int| 0 <= i < ops.len() implies (key_actor_cells(ops, author)[i] is None <==> (
        #[trigger] ops[i]).key_actor() is None) by {}
    }
    assert(cells::all_null(key_ctr_cells(ops)) <==> (forall|i: int|
        0 <= i < ops.len() ==> (#[trigger] ops[i]).key_ctr() is None)) by {
        assert forall|i: int| 0 <= i < ops.len() implies (key_ctr_cells(ops)[i] is None <==> (
        #[trigger] ops[i]).key_ctr() is None) by {}
    }
    assert(cells::all_null(key_str_cells(ops)) <==> (forall|i: int|
        0 <= i < ops.len() ==> (#[trigger] ops[i]).key_str() is None)) by {
        assert forall|i: int| 0 <= i < ops.len() implies (key_str_cells(ops)[i] is None <==> (
        #[trigger] ops[i]).key_str() is None) by {}
    }
    assert(cells::all_null(mark_name_cells(ops)) <==> (forall|i: int|
        0 <= i < ops.len() ==> (#[trigger] ops[i]).mark_name is None)) by {
        assert forall|i: int| 0 <= i < ops.len() implies (mark_name_cells(ops)[i] is None <==> (
        #[trigger] ops[i]).mark_name is None) by {}
    }
    assert(cells::all_false(expand_cells(ops)) <==> (forall|i: int|
        0 <= i < ops.len() ==> !(#[trigger] ops[i]).expand)) by {
        assert forall|i: int| 0 <= i < ops.len() implies expand_cells(ops)[i] == (
        #[trigger] ops[i]).expand by {}
    }
}

/// Appends the columns of a change by `change_actor` and returns where they
/// stand.
pub fn write_change_ops(
    ops: &[OpBuilder],
    change_actor: usize,
    data: &mut Vec<u8>,
    mapper: &mut ActorMapper<'_>,
) -> (r: ChangeOpsColumns)
    requires
        ops@.len() > 0 ==> writable(
            op::op_models(ops@),
            change_actor as nat,
            old(mapper)@.actors.len(),
        ),
    ensures
        ops@.len() == 0 ==> r == no_columns() && final(data)@ == old(data)@ && final(mapper)@
            == old(mapper)@,
        ops@.len() > 0 ==> {
            let models = op::op_models(ops@);
            let author = change_actor as nat;
            let parts = column_parts(models, author);
            &&& final(mapper)@.wf()
            &&& final(mapper)@.actors == old(mapper)@.actors
            &&& final(mapper)@.maps(models, author)
            &&& final(data)@ == old(data)@ + parse::concat(parts)
            &&& r.laid_out(parts, old(data)@.len())
            &&& reads_back(parts, models, author)
            &&& r.leaves_out(models)
        },
{
    if ops.len() == 0 {
        return ChangeOpsColumns::default();
    }
    mapper.remap_actors(ops, change_actor);
    let ghost d0 = data@;
    let obj_actor: Range<usize> = write_obj_actor(data, ops, change_actor, mapper);
    let ghost d1 = data@;
    let obj_ctr: Range<usize> = write_obj_ctr(data, ops);
    let ghost d2 = data@;
    let key_actor: Range<usize> = write_key_actor(data, ops, change_actor, mapper);
    let ghost d3 = data@;
    let key_ctr: Range<usize> = write_key_ctr(data, ops);
    let ghost d4 = data@;
    let key_str: Range<usize> = write_key_str(data, ops);
    let ghost d5 = data@;
    let insert: Range<usize> = write_insert(data, ops);
    let ghost d6 = data@;
    let action: Range<usize> = write_action(data, ops);
    let ghost d7 = data@;
    let value_meta: Range<usize> = write_value_meta(data, ops);
    let ghost d8 = data@;
    let value: Range<usize> = write_values(ops, data);
    let ghost d9 = data@;
    let pred_count: Range<usize> = write_pred_count(data, ops);
    let ghost d10 = data@;
    let preds: Vec<OpId> = list_preds(ops);
    let pred_actor: Range<usize> = write_pred_actor(data, ops, change_actor, mapper, &preds);
    let ghost d11 = data@;
    let pred_ctr: Range<usize> = write_pred_ctr(data, &preds);
    let ghost d12 = data@;
    let expand: Range<usize> = write_expand(data, ops);
    let ghost d13 = data@;
    let mark_name: Range<usize> = write_mark_name(data, ops);
    let ghost d14 = data@;
    let r = ChangeOpsColumns {
        obj_actor,
        obj_ctr,
        key_actor,
        key_ctr,
        key_str,
        insert,
        action,
        value_meta,
        value,
        pred_count,
        pred_actor,
        pred_ctr,
        expand,
        mark_name,
    };
    proof {
        let parts = column_parts(op::op_models(ops@), change_actor as nat);
        let states = seq![d0, d1, d2, d3, d4, d5, d6, d7, d8, d9, d10, d11, d12, d13, d14];
        assert forall|i: int| 0 <= i <= 14 implies #[trigger] states[i] == d0 + parse::concat(
            parts.take(i),
        ) by {
            lemma_appended(parts, states, i);
        }
        assert(parts.take(14) =~= parts);
        assert forall|i: int| 0 <= i < 14 implies {
            &&& (#[trigger] r.ranges()[i]).start == states[i].len()
            &&& r.ranges()[i].end == states[i + 1].len()
        } by {}
        assert(data@ == states[14]);
        lemma_leaves_out(r, op::op_models(ops@), change_actor as nat, d0.len());
    }
    r
}

// The list of columns.

/// A column of operations.
pub open spec fn op_column(id: u32, col_type: ColumnType, data: Range<usize>) -> RawColumn {
    RawColumn { spec: ColumnSpec::make(ColumnId(id), col_type, false), data }
}

pub open spec fn is_empty(r: Range<usize>) -> bool {
    r.start >= r.end
}

impl ChangeOpsColumns {
    /// The columns in front of the value bytes, which are never left out.
    pub open spec fn leading_columns(self) -> Seq<RawColumn> {
        seq![
            op_column(0, ColumnType::Actor, self.obj_actor),
            op_column(0, ColumnType::Integer, self.obj_ctr),
            op_column(1, ColumnType::Actor, self.key_actor),
            op_column(1, ColumnType::DeltaInteger, self.key_ctr),
            op_column(1, ColumnType::String, self.key_str),
            op_column(3, ColumnType::Boolean, self.insert),
            op_column(4, ColumnType::Integer, self.action),
            op_column(5, ColumnType::ValueMetadata, self.value_meta),
        ]
    }

    /// The value bytes, which are left out where there are none.
    pub open spec fn value_column(self) -> Seq<RawColumn> {
        if is_empty(self.value) {
            Seq::empty()
        } else {
            seq![op_column(5, ColumnType::Value, self.value)]
        }
    }

    /// The predecessors. Their actors and counters are left out where there
    /// are none.
    pub open spec fn pred_columns(self) -> Seq<RawColumn> {
        let count = seq![op_column(7, ColumnType::Group, self.pred_count)];
        if is_empty(self.pred_actor) {
            count
        } else {
            count.push(op_column(7, ColumnType::Actor, self.pred_actor)).push(
                op_column(7, ColumnType::DeltaInteger, self.pred_ctr),
            )
        }
    }

    /// The columns of marks, each of which is left out where it is empty.
    pub open spec fn mark_columns(self) -> Seq<RawColumn> {
        let expand = if is_empty(self.expand) {
            Seq::empty()
        } else {
            seq![op_column(9, ColumnType::Boolean, self.expand)]
        };
        if is_empty(self.mark_name) {
            expand
        } else {
            expand.push(op_column(10, ColumnType::String, self.mark_name))
        }
    }

    /// The list of columns.
    pub open spec fn raw_columns(self) -> Seq<RawColumn> {
        self.leading_columns() + self.value_column() + self.pred_columns() + self.mark_columns()
    }

    /// The list of columns, as it is written in front of them.
    pub fn to_raw_columns(&self) -> (r: RawColumns)
        ensures
            r@ == self.raw_columns(),
    {
        let mut cols: Vec<RawColumn> = Vec::new();
        push_column(&mut cols, 0, ColumnType::Actor, &self.obj_actor);
        push_column(&mut cols, 0, ColumnType::Integer, &self.obj_ctr);
        push_column(&mut cols, 1, ColumnType::Actor, &self.key_actor);
        push_column(&mut cols, 1, ColumnType::DeltaInteger, &self.key_ctr);
        push_column(&mut cols, 1, ColumnType::String, &self.key_str);
        push_column(&mut cols, 3, ColumnType::Boolean, &self.insert);
        push_column(&mut cols, 4, ColumnType::Integer, &self.action);
        push_column(&mut cols, 5, ColumnType::ValueMetadata, &self.value_meta);
        assert(cols@ =~= self.leading_columns());
        if self.value.start < self.value.end {
            push_column(&mut cols, 5, ColumnType::Value, &self.value);
        }
        assert(cols@ =~= self.leading_columns() + self.value_column());
        push_column(&mut cols, 7, ColumnType::Group, &self.pred_count);
        if self.pred_actor.start < self.pred_actor.end {
            push_column(&mut cols, 7, ColumnType::Actor, &self.pred_actor);
            push_column(&mut cols, 7, ColumnType::DeltaInteger, &self.pred_ctr);
        }
        assert(cols@ =~= self.leading_columns() + self.value_column() + self.pred_columns());
        if self.expand.start < self.expand.end {
            push_column(&mut cols, 9, ColumnType::Boolean, &self.expand);
        }
        if self.mark_name.start < self.mark_name.end {
            push_column(&mut cols, 10, ColumnType::String, &self.mark_name);
        }
        assert(cols@ =~= self.raw_columns());
        RawColumns(cols)
    }
}

fn push_column(cols: &mut Vec<RawColumn>, id: u32, col_type: ColumnType, data: &Range<usize>)
    requires
        id <= 10,
    ensures
        final(cols)@ == old(cols)@.push(op_column(id, col_type, *data)),
{
    let spec = ColumnSpec::new(ColumnId(id), col_type, false);
    cols.push(RawColumn::new(spec, data.start..data.end));
}

/// The columns stand one behind the other within `len` bytes.
pub open spec fn chained(cols: ChangeOpsColumns, len: nat) -> bool {
    &&& cols.obj_actor.start == 0
    &&& cols.obj_actor.start <= cols.obj_actor.end == cols.obj_ctr.start
    &&& cols.obj_ctr.start <= cols.obj_ctr.end == cols.key_actor.start
    &&& cols.key_actor.start <= cols.key_actor.end == cols.key_ctr.start
    &&& cols.key_ctr.start <= cols.key_ctr.end == cols.key_str.start
    &&& cols.key_str.start <= cols.key_str.end == cols.insert.start
    &&& cols.insert.start <= cols.insert.end == cols.action.start
    &&& cols.action.start <= cols.action.end == cols.value_meta.start
    &&& cols.value_meta.start <= cols.value_meta.end == cols.value.start
    &&& cols.value.start <= cols.value.end == cols.pred_count.start
    &&& cols.pred_count.start <= cols.pred_count.end == cols.pred_actor.start
    &&& cols.pred_actor.start <= cols.pred_actor.end == cols.pred_ctr.start
    &&& cols.pred_ctr.start <= cols.pred_ctr.end == cols.expand.start
    &&& cols.expand.start <= cols.expand.end == cols.mark_name.start
    &&& cols.mark_name.start <= cols.mark_name.end == len
    &&& cols.pred_actor.start == cols.pred_actor.end ==> cols.pred_ctr.start == cols.pred_ctr.end
}

/// Columns that stand where parts do stand one behind the other.
pub proof fn lemma_columns_of(parts: Seq<Seq<u8>>)
    requires
        parts.len() == 14,
        parts[10].len() == 0 ==> parts[11].len() == 0,
        parse::concat(parts).len() <= usize::MAX,
    ensures
        chained(columns_of(parts), parse::concat(parts).len()),
{
    assert forall|i: int| 0 <= i < 14 implies {
        let start = parse::concat(#[trigger] parts.take(i)).len();
        let end = parse::concat(parts.take(i + 1)).len();
        start + parts[i].len() == end <= usize::MAX
    } by {
        parse::lemma_concat_part(parts, i);
    }
    assert(parts.take(0) =~= Seq::empty());
    assert(parts.take(14) =~= parts);
    assert(parse::concat(parts.take(0)).len() + parts[0].len() == parse::concat(parts.take(1)).len());
    assert(parse::concat(parts.take(1)).len() + parts[1].len() == parse::concat(parts.take(2)).len());
    assert(parse::concat(parts.take(2)).len() + parts[2].len() == parse::concat(parts.take(3)).len());
    assert(parse::concat(parts.take(3)).len() + parts[3].len() == parse::concat(parts.take(4)).len());
    assert(parse::concat(parts.take(4)).len() + parts[4].len() == parse::concat(parts.take(5)).len());
    assert(parse::concat(parts.take(5)).len() + parts[5].len() == parse::concat(parts.take(6)).len());
    assert(parse::concat(parts.take(6)).len() + parts[6].len() == parse::concat(parts.take(7)).len());
    assert(parse::concat(parts.take(7)).len() + parts[7].len() == parse::concat(parts.take(8)).len());
    assert(parse::concat(parts.take(8)).len() + parts[8].len() == parse::concat(parts.take(9)).len());
    assert(parse::concat(parts.take(9)).len() + parts[9].len() == parse::concat(parts.take(10)).len());
    assert(parse::concat(parts.take(10)).len() + parts[10].len() == parse::concat(parts.take(11)).len());
    assert(parse::concat(parts.take(11)).len() + parts[11].len() == parse::concat(parts.take(12)).len());
    assert(parse::concat(parts.take(12)).len() + parts[12].len() == parse::concat(parts.take(13)).len());
    assert(parse::concat(parts.take(13)).len() + parts[13].len() == parse::concat(parts.take(14)).len());
}

/// The columns stand one behind the other between two places, and their
/// specifications are in order between two numbers.
spec fn chain(cols: Seq<RawColumn>, from: nat, to: nat, low: int, high: int) -> bool
    decreases cols.len(),
{
    if cols.len() == 0 {
        from == to && low <= high
    } else {
        let last = cols.last();
        &&& last.data.start <= last.data.end == to
        &&& last.spec.normal() <= high
        &&& !last.spec.spec_deflate()
        &&& chain(cols.drop_last(), from, last.data.start as nat, low, last.spec.normal())
    }
}

proof fn lemma_chain_push(cols: Seq<RawColumn>, col: RawColumn, from: nat, low: int, high: int)
    requires
        chain(cols, from, col.data.start as nat, low, high),
        high <= col.spec.normal(),
        !col.spec.spec_deflate(),
        col.data.start <= col.data.end,
    ensures
        chain(cols.push(col), from, col.data.end as nat, low, col.spec.normal()),
{
    assert(cols.push(col).drop_last() =~= cols);
    lemma_chain_high(cols, from, col.data.start as nat, low, high, col.spec.normal());
}

proof fn lemma_chain_high(
    cols: Seq<RawColumn>,
    from: nat,
    to: nat,
    low: int,
    high: int,
    higher: int,
)
    requires
        chain(cols, from, to, low, high),
        high <= higher,
    ensures
        chain(cols, from, to, low, higher),
{
}

proof fn lemma_chain_append(
    a: Seq<RawColumn>,
    b: Seq<RawColumn>,
    from: nat,
    mid: nat,
    to: nat,
    low: int,
    between: int,
    high: int,
)
    requires
        chain(a, from, mid, low, between),
        chain(b, mid, to, between, high),
    ensures
        chain(a + b, from, to, low, high),
    decreases b.len(),
{
    if b.len() == 0 {
        assert(a + b =~= a);
        lemma_chain_high(a, from, to, low, between, high);
    } else {
        let last = b.last();
        lemma_chain_append(
            a,
            b.drop_last(),
            from,
            mid,
            last.data.start as nat,
            low,
            between,
            last.spec.normal(),
        );
        assert((a + b).drop_last() =~= a + b.drop_last());
    }
}

/// Where the `i`-th column of a chain stands.
proof fn lemma_chain_at(
    cols: Seq<RawColumn>,
    from: nat,
    to: nat,
    low: int,
    high: int,
    i: int,
)
    requires
        chain(cols, from, to, low, high),
        0 <= i < cols.len(),
    ensures
        cols[i].data.start == (if i == 0 {
            from
        } else {
            cols[i - 1].data.end as nat
        }),
        cols[i].data.start <= cols[i].data.end <= to,
    decreases cols.len(),
{
    reveal_with_fuel(chain, 2);
    let last = cols.last();
    let front = cols.drop_last();
    let mid = last.data.start as nat;
    if i < front.len() {
        lemma_chain_at(front, from, mid, low, last.spec.normal(), i);
        assert(front[i] == cols[i]);
        if i > 0 {
            assert(front[i - 1] == cols[i - 1]);
        }
    } else if i > 0 {
        assert(front.last() == cols[i - 1]);
    }
}

proof fn lemma_chain_uncompressed(
    cols: Seq<RawColumn>,
    from: nat,
    to: nat,
    low: int,
    high: int,
    i: int,
)
    requires
        chain(cols, from, to, low, high),
        0 <= i < cols.len(),
    ensures
        !cols[i].spec.spec_deflate(),
        cols[i].spec.normal() <= high,
    decreases cols.len(),
{
    let last = cols.last();
    if i < cols.len() - 1 {
        lemma_chain_uncompressed(
            cols.drop_last(),
            from,
            last.data.start as nat,
            low,
            last.spec.normal(),
            i,
        );
    }
}

proof fn lemma_chain_ordered(
    cols: Seq<RawColumn>,
    from: nat,
    to: nat,
    low: int,
    high: int,
    i: int,
    j: int,
)
    requires
        chain(cols, from, to, low, high),
        0 <= i <= j < cols.len(),
    ensures
        cols[i].spec.normal() <= cols[j].spec.normal(),
    decreases cols.len(),
{
    let last = cols.last();
    let front = cols.drop_last();
    if j < front.len() {
        lemma_chain_ordered(
            front,
            from,
            last.data.start as nat,
            low,
            last.spec.normal(),
            i,
            j,
        );
    } else if i < front.len() {
        lemma_chain_uncompressed(
            front,
            from,
            last.data.start as nat,
            low,
            last.spec.normal(),
            i,
        );
    }
}

proof fn lemma_chain_facts(cols: Seq<RawColumn>, to: nat, high: int)
    requires
        chain(cols, 0, to, 0, high),
    ensures
        storage_columns::contiguous(cols),
        storage_columns::in_normal_order(cols),
        storage_columns::columns_end(cols) == to,
        storage_columns::within(cols, to),
        !storage_columns::compressed(cols),
{
    assert forall|i: int| 0 <= i < cols.len() implies (#[trigger] cols[i]).data.start
        == storage_columns::end_before(cols, i) && cols[i].data.start <= cols[i].data.end
        && cols[i].data.end <= to by {
        lemma_chain_at(cols, 0, to, 0, high, i);
    }
    assert forall|i: int, j: int| 0 <= i <= j < cols.len() implies (
    #[trigger] cols[i]).spec.normal() <= (#[trigger] cols[j]).spec.normal() by {
        lemma_chain_ordered(cols, 0, to, 0, high, i, j);
    }
    assert forall|i: int| 0 <= i < cols.len() implies !(
    #[trigger] cols[i]).spec.spec_deflate() by {
        lemma_chain_uncompressed(cols, 0, to, 0, high, i);
    }
}

/// The list of columns is in order, and its columns stand one behind the other.
#[verifier::rlimit(40)]
pub proof fn lemma_raw_columns(c: ChangeOpsColumns, len: nat)
    requires
        chained(c, len),
    ensures
        storage_columns::contiguous(c.raw_columns()),
        storage_columns::in_normal_order(c.raw_columns()),
        storage_columns::columns_end(c.raw_columns()) == len,
        storage_columns::within(c.raw_columns(), len),
        !storage_columns::compressed(c.raw_columns()),
        c.raw_columns().len() <= 14,
{
    lemma_leading_chain(c, len);
    lemma_value_chain(c, len);
    lemma_pred_chain(c, len);
    lemma_mark_chain(c, len);
    let a = c.leading_columns();
    let b = a + c.value_column();
    let d = b + c.pred_columns();
    lemma_chain_append(
        a,
        c.value_column(),
        0,
        c.value.start as nat,
        c.value.end as nat,
        0,
        86,
        87,
    );
    lemma_chain_append(
        b,
        c.pred_columns(),
        0,
        c.value.end as nat,
        c.pred_ctr.end as nat,
        0,
        87,
        115,
    );
    lemma_chain_append(d, c.mark_columns(), 0, c.pred_ctr.end as nat, len, 0, 115, 165);
    lemma_chain_facts(c.raw_columns(), len, 165);
}

proof fn lemma_leading_chain(c: ChangeOpsColumns, len: nat)
    requires
        chained(c, len),
    ensures
        chain(c.leading_columns(), 0, c.value.start as nat, 0, 86),
{
    let l1 = Seq::<RawColumn>::empty().push(op_column(0, ColumnType::Actor, c.obj_actor));
    lemma_chain_push(Seq::<RawColumn>::empty(), op_column(0, ColumnType::Actor, c.obj_actor), 0, 0, 0);
    let l2 = l1.push(op_column(0, ColumnType::Integer, c.obj_ctr));
    lemma_chain_push(l1, op_column(0, ColumnType::Integer, c.obj_ctr), 0, 0, 1);
    let l3 = l2.push(op_column(1, ColumnType::Actor, c.key_actor));
    lemma_chain_push(l2, op_column(1, ColumnType::Actor, c.key_actor), 0, 0, 2);
    let l4 = l3.push(op_column(1, ColumnType::DeltaInteger, c.key_ctr));
    lemma_chain_push(l3, op_column(1, ColumnType::DeltaInteger, c.key_ctr), 0, 0, 17);
    let l5 = l4.push(op_column(1, ColumnType::String, c.key_str));
    lemma_chain_push(l4, op_column(1, ColumnType::String, c.key_str), 0, 0, 19);
    let l6 = l5.push(op_column(3, ColumnType::Boolean, c.insert));
    lemma_chain_push(l5, op_column(3, ColumnType::Boolean, c.insert), 0, 0, 21);
    let l7 = l6.push(op_column(4, ColumnType::Integer, c.action));
    lemma_chain_push(l6, op_column(4, ColumnType::Integer, c.action), 0, 0, 52);
    let l8 = l7.push(op_column(5, ColumnType::ValueMetadata, c.value_meta));
    lemma_chain_push(l7, op_column(5, ColumnType::ValueMetadata, c.value_meta), 0, 0, 66);
    assert(l8 =~= c.leading_columns());
}

proof fn lemma_value_chain(c: ChangeOpsColumns, len: nat)
    requires
        chained(c, len),
    ensures
        chain(c.value_column(), c.value.start as nat, c.value.end as nat, 86, 87),
{
    let none = Seq::<RawColumn>::empty();
    if !is_empty(c.value) {
        lemma_chain_push(none, op_column(5, ColumnType::Value, c.value), c.value.start as nat, 86, 86);
        assert(none.push(op_column(5, ColumnType::Value, c.value)) =~= c.value_column());
    }
}

proof fn lemma_pred_chain(c: ChangeOpsColumns, len: nat)
    requires
        chained(c, len),
    ensures
        chain(c.pred_columns(), c.value.end as nat, c.pred_ctr.end as nat, 87, 115),
{
    let none = Seq::<RawColumn>::empty();
    let count = op_column(7, ColumnType::Group, c.pred_count);
    let actor = op_column(7, ColumnType::Actor, c.pred_actor);
    let ctr = op_column(7, ColumnType::DeltaInteger, c.pred_ctr);
    let from = c.value.end as nat;
    lemma_chain_push(none, count, from, 87, 87);
    assert(none.push(count) =~= seq![count]);
    if is_empty(c.pred_actor) {
        lemma_chain_high(seq![count], from, c.pred_count.end as nat, 87, 112, 115);
    } else {
        lemma_chain_push(seq![count], actor, from, 87, 112);
        lemma_chain_push(seq![count].push(actor), ctr, from, 87, 113);
    }
}

proof fn lemma_mark_chain(c: ChangeOpsColumns, len: nat)
    requires
        chained(c, len),
    ensures
        chain(c.mark_columns(), c.pred_ctr.end as nat, len, 115, 165),
{
    let none = Seq::<RawColumn>::empty();
    let expand = op_column(9, ColumnType::Boolean, c.expand);
    let mark = op_column(10, ColumnType::String, c.mark_name);
    let from = c.pred_ctr.end as nat;
    let first = if is_empty(c.expand) {
        none
    } else {
        seq![expand]
    };
    if is_empty(c.expand) {
        assert(chain(none, from, c.expand.end as nat, 115, 148));
    } else {
        lemma_chain_push(none, expand, from, 115, 115);
        assert(none.push(expand) =~= seq![expand]);
    }
    if is_empty(c.mark_name) {
        lemma_chain_high(first, from, c.expand.end as nat, 115, 148, 165);
    } else {
        lemma_chain_push(first, mark, from, 115, 148);
    }
}

pub proof fn lemma_preds_flat(ops: Seq<OpModel>, from: nat)
    requires
        from <= ops.len(),
    ensures
        preds_from(ops, from) == ops.skip(from as int).flat_map(|op: OpModel| op.pred),
    decreases ops.len() - from,
{
    let f = |op: OpModel| op.pred;
    let rest = ops.skip(from as int);
    if from < ops.len() {
        lemma_preds_flat(ops, from + 1);
        assert(rest.drop_first() =~= ops.skip(from as int + 1));
        assert(rest.map_values(f).drop_first() =~= ops.skip(from as int + 1).map_values(f));
    }
}

proof fn lemma_values_flat(ops: Seq<OpModel>, from: nat)
    requires
        from <= ops.len(),
    ensures
        values_from(ops, from) == ops.skip(from as int).flat_map(|op: OpModel| op.value.raw()),
    decreases ops.len() - from,
{
    let f = |op: OpModel| op.value.raw();
    let rest = ops.skip(from as int);
    if from < ops.len() {
        lemma_values_flat(ops, from + 1);
        assert(rest.drop_first() =~= ops.skip(from as int + 1));
        assert(rest.map_values(f).drop_first() =~= ops.skip(from as int + 1).map_values(f));
    }
}

/// Each column has a cell for each operation, in order. That of an actor is 0
/// for the author and one more than the actors before it for another one that
/// operations mention. The predecessors of all operations stand one behind the
/// other, and so do the bytes of their values.
pub proof fn columns_are_written_so(ops: Seq<OpModel>, author: nat)
    ensures
        ({
            let parts = column_parts(ops, author);
            let preds = ops.flat_map(|op: OpModel| op.pred);
            let local = |actor: Option<u32>|
                match actor {
                    Some(a) => Some(
                        if a == author {
                            0u64
                        } else {
                            (1 + mapper::others(ops, author, a as nat).len()) as u64
                        },
                    ),
                    None => None,
                };
            &&& parts.len() == 14
            &&& parts[0] == cells::uint_bytes_unless_null(
                ops.map_values(|op: OpModel| local(op.obj_actor())),
            )
            &&& parts[1] == cells::uint_bytes_unless_null(
                ops.map_values(|op: OpModel| op.obj_ctr()),
            )
            &&& parts[2] == cells::uint_bytes_unless_null(
                ops.map_values(|op: OpModel| local(op.key_actor())),
            )
            &&& parts[3] == cells::delta_bytes_unless_null(
                ops.map_values(|op: OpModel| op.key_ctr()),
            )
            &&& parts[4] == cells::text_bytes_unless_null(
                ops.map_values(|op: OpModel| op.key_str()),
            )
            &&& parts[5] == cells::bool_bytes(ops.map_values(|op: OpModel| op.insert))
            &&& parts[6] == cells::uint_bytes(
                ops.map_values(|op: OpModel| Some(op.action.spec_code())),
            )
            &&& parts[7] == cells::uint_bytes(ops.map_values(|op: OpModel| Some(op.value_meta())))
            &&& parts[8] == ops.flat_map(|op: OpModel| op.value.raw())
            &&& parts[9] == cells::uint_bytes(
                ops.map_values(|op: OpModel| Some(op.pred.len() as u64)),
            )
            &&& parts[10] == cells::uint_bytes(preds.map_values(|id: OpId| local(Some(id.actor))))
            &&& parts[11] == cells::delta_bytes(
                preds.map_values(|id: OpId| Some(id.counter as i64)),
            )
            &&& parts[12] == cells::bool_bytes_unless_false(
                ops.map_values(|op: OpModel| op.expand),
            )
            &&& parts[13] == cells::text_bytes_unless_null(
                ops.map_values(|op: OpModel| op.mark_name),
            )
        }),
{
    let local = |actor: Option<u32>|
        match actor {
            Some(a) => Some(
                if a == author {
                    0u64
                } else {
                    (1 + mapper::others(ops, author, a as nat).len()) as u64
                },
            ),
            None => None,
        };
    lemma_preds_flat(ops, 0);
    lemma_values_flat(ops, 0);
    assert(ops.skip(0) =~= ops);
    let preds = preds_from(ops, 0);
    assert(obj_actor_cells(ops, author) =~= ops.map_values(
        |op: OpModel| local(op.obj_actor()),
    ));
    assert(obj_ctr_cells(ops) =~= ops.map_values(|op: OpModel| op.obj_ctr()));
    assert(key_actor_cells(ops, author) =~= ops.map_values(
        |op: OpModel| local(op.key_actor()),
    ));
    assert(key_ctr_cells(ops) =~= ops.map_values(|op: OpModel| op.key_ctr()));
    assert(key_str_cells(ops) =~= ops.map_values(|op: OpModel| op.key_str()));
    assert(insert_cells(ops) =~= ops.map_values(|op: OpModel| op.insert));
    assert(action_cells(ops) =~= ops.map_values(|op: OpModel| Some(op.action.spec_code())));
    assert(meta_cells(ops) =~= ops.map_values(|op: OpModel| Some(op.value_meta())));
    assert(pred_count_cells(ops) =~= ops.map_values(|op: OpModel| Some(op.pred.len() as u64)));
    assert(pred_actor_cells(ops, author, preds) =~= preds.map_values(
        |id: OpId| local(Some(id.actor)),
    ));
    assert(pred_ctr_cells(preds) =~= preds.map_values(|id: OpId| Some(id.counter as i64)));
    assert(expand_cells(ops) =~= ops.map_values(|op: OpModel| op.expand));
    assert(mark_name_cells(ops) =~= ops.map_values(|op: OpModel| op.mark_name));
}

/// The columns are listed with their specifications, in this order: the actor
/// and the counter of the object, the actor, the counter and the text of the key,
/// whether it inserts, the action, the number of the value and its bytes, how
/// many predecessors there are and their actors and counters, whether a mark
/// expands and its name. The bytes of the values, the predecessors and the columns
/// of marks are left out where there are none.
pub proof fn columns_are_listed_so(c: ChangeOpsColumns)
    ensures
        ({
            let col = |spec: u32, data: Range<usize>| RawColumn { spec: ColumnSpec(spec), data };
            let unless_empty = |spec: u32, data: Range<usize>|
                if data.start < data.end {
                    seq![col(spec, data)]
                } else {
                    Seq::empty()
                };
            c.raw_columns() == seq![
                col(1, c.obj_actor),
                col(2, c.obj_ctr),
                col(17, c.key_actor),
                col(19, c.key_ctr),
                col(21, c.key_str),
                col(52, c.insert),
                col(66, c.action),
                col(86, c.value_meta),
            ] + unless_empty(87, c.value) + seq![col(112, c.pred_count)] + (if c.pred_actor.start
                < c.pred_actor.end {
                seq![col(113, c.pred_actor), col(115, c.pred_ctr)]
            } else {
                Seq::empty()
            }) + unless_empty(148, c.expand) + unless_empty(165, c.mark_name)
        }),
{
}

} // verus!
