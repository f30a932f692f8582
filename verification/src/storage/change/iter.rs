//! Reading of the operations of a change, row by row.
//!
//! The columns of a change are read side by side. The `action` column says how
//! many rows there are: it is never left out. A column that is left out reads
//! as its default in every row.
use super::{ParseError, ReadChangeOpError, ReadFault};
use crate::columnar::encoding::cells::{
    self, BoolColumn, Col, DeltaColumn, Pulled, TextColumn, UintColumn,
};
use crate::columnar::encoding::col_error::{DecodeColumnError, DecodeColumnFault};
use crate::error::InvalidOpType;
use crate::leb;
use crate::op_set2::meta::{ValueMeta, ValueType};
use crate::op_set2::op::{OpBuilder, OpModel};
use crate::op_set2::types::{self, Action, KeyModel, KeyRef, ScalarModel, ScalarValue};
use crate::storage::columns::{self, ColumnType, RawColumn, RawColumns};
use crate::types::{ElemId, ObjId, OpId};
use vstd::prelude::*;

verus! {

// What a row means.

/// A cell that must not be null is.
pub open spec fn missing(col: Seq<char>) -> ReadFault {
    ReadFault::Decode(DecodeColumnFault::UnexpectedNull { path: col })
}

/// A cell holds what it must not.
pub open spec fn invalid(col: Seq<char>, reason: Seq<char>) -> ReadFault {
    ReadFault::Decode(DecodeColumnFault::InvalidValue { path: col, reason })
}

/// The id of an operation, where its counter fits.
pub open spec fn op_id_of(counter: int, actor: u32) -> Result<OpId, ReadFault> {
    if 0 <= counter <= u32::MAX {
        Ok(OpId { counter: counter as u32, actor })
    } else {
        Err(ReadFault::CounterTooLarge)
    }
}

/// The action that a cell stands for.
pub open spec fn action_of(cell: Option<u64>) -> Result<Action, ReadFault> {
    match cell {
        Some(code) => match Action::of_code(code) {
            Some(action) => Ok(action),
            None => Err(invalid("action"@, "unknown action"@)),
        },
        None => Err(missing("action"@)),
    }
}

/// The index of an actor, where it fits.
pub open spec fn actor_of(cell: Option<u64>, col: Seq<char>) -> Result<Option<u32>, ReadFault> {
    match cell {
        Some(v) => if v <= u32::MAX {
            Ok(Some(v as u32))
        } else {
            Err(invalid(col, "actor index too large"@))
        },
        None => Ok(None),
    }
}

/// The object that an actor and a counter stand for.
pub open spec fn obj_of(actor: Option<u32>, ctr: Option<u64>) -> Result<ObjId, ReadFault> {
    match (actor, ctr) {
        (None, None) => Ok(ObjId::spec_root()),
        (Some(_), None) => Err(missing("obj_ctr"@)),
        (None, Some(c)) => if c == 0 {
            Ok(ObjId::spec_root())
        } else {
            Err(missing("obj_actor"@))
        },
        (Some(a), Some(c)) => if c == 0 {
            Ok(ObjId::spec_root())
        } else {
            match op_id_of(c as int, a) {
                Ok(id) => Ok(ObjId(id)),
                Err(e) => Err(e),
            }
        },
    }
}

/// The key that the cells of the key columns stand for.
pub open spec fn key_of(actor: Option<u32>, ctr: Option<i64>, text: Option<Seq<char>>) -> Result<
    KeyModel,
    ReadFault,
> {
    match (actor, ctr, text) {
        (None, None, Some(s)) => Ok(KeyModel::Prop(s)),
        (Some(a), Some(c), None) => match op_id_of(c as int, a) {
            Ok(id) => Ok(KeyModel::Elem(ElemId(id))),
            Err(e) => Err(e),
        },
        (None, Some(c), None) => if c == 0 {
            Ok(KeyModel::Elem(ElemId::spec_head()))
        } else {
            Err(invalid("key"@, "ambiguous or incomplete key columns"@))
        },
        _ => Err(invalid("key"@, "ambiguous or incomplete key columns"@)),
    }
}

/// The predecessor that an actor and a counter stand for.
pub open spec fn pred_of(actor: Option<u32>, ctr: Option<i64>) -> Result<OpId, ReadFault> {
    match (actor, ctr) {
        (Some(a), Some(c)) => op_id_of(c as int, a),
        _ => Err(missing("pred"@)),
    }
}

/// Why a value could not be read, in words.
pub open spec fn scalar_reason(e: types::ReadScalarError) -> Seq<char> {
    match e {
        types::ReadScalarError::InvalidLeb => "invalid leb128"@,
        types::ReadScalarError::InvalidFloat => "invalid float"@,
        types::ReadScalarError::InvalidUtf8 => "invalid utf8"@,
    }
}

/// The value that `raw` holds. A number must take all of it.
pub open spec fn value_of(meta: u64, raw: Seq<u8>) -> Result<ScalarModel, ReadFault> {
    let ty = ValueMeta(meta).spec_type();
    if ty is Uleb && leb::uleb_read(raw, 0) is None {
        Err(invalid("value"@, "bad uleb"@))
    } else if ty is Uleb && (leb::uleb_read(raw, 0) matches Some((_, n)) && n != raw.len()) {
        Err(invalid("value"@, "extra bytes"@))
    } else if ty.is_signed() && leb::sleb_read(raw, 0) is None {
        Err(invalid("value"@, "bad leb"@))
    } else if ty.is_signed() && (leb::sleb_read(raw, 0) matches Some((_, n)) && n != raw.len()) {
        Err(invalid("value"@, "extra bytes"@))
    } else {
        match types::scalar_of(ty, raw) {
            Ok(v) => Ok(v),
            Err(e) => Err(invalid("value"@, scalar_reason(e))),
        }
    }
}

/// An increment must be by an integer.
pub open spec fn value_allowed(action: Action, value: ScalarModel) -> bool {
    action is Increment ==> value is Int || value is Uint
}

// Rows of columns.

/// What is left of the columns of a change.
pub struct Rows {
    pub obj_actor: Col<Option<u64>>,
    pub obj_ctr: Col<Option<u64>>,
    pub key_actor: Col<Option<u64>>,
    pub key_ctr: Col<Option<i64>>,
    pub key_str: Col<Option<Seq<char>>>,
    pub insert: Col<bool>,
    pub action: Col<Option<u64>>,
    pub meta: Col<Option<u64>>,
    pub pred_count: Col<Option<u64>>,
    pub pred_actor: Col<Option<u64>>,
    pub pred_ctr: Col<Option<i64>>,
    pub expand: Col<bool>,
    pub mark_name: Col<Option<Seq<char>>>,
    pub value: Seq<u8>,
    /// The counter of the first operation.
    pub start_op: nat,
    /// How many operations have been read.
    pub next_idx: nat,
}

/// A cell of a column that is null where it was left out.
pub open spec fn or_null<V>(p: Pulled<Option<V>>, col: Seq<char>) -> Result<Option<V>, ReadFault> {
    match p {
        Pulled::Cell(v) => Ok(v),
        Pulled::End => Ok(None),
        Pulled::Malformed(reason) => Err(ReadFault::Decode(cells::malformed(col, reason))),
    }
}

/// A cell of a column that is `false` where it was left out.
pub open spec fn or_false(p: Pulled<bool>, col: Seq<char>) -> Result<bool, ReadFault> {
    match p {
        Pulled::Cell(v) => Ok(v),
        Pulled::End => Ok(false),
        Pulled::Malformed(reason) => Err(ReadFault::Decode(cells::malformed(col, reason))),
    }
}

/// A cell of a column of actors.
pub open spec fn or_null_actor(p: Pulled<Option<u64>>, col: Seq<char>) -> Result<
    Option<u32>,
    ReadFault,
> {
    match or_null(p, col) {
        Ok(cell) => actor_of(cell, col),
        Err(e) => Err(e),
    }
}

pub open spec fn read_obj(r: Rows) -> (Result<ObjId, ReadFault>, Rows) {
    let r1 = Rows { obj_actor: r.obj_actor.rest(), ..r };
    match or_null_actor(r.obj_actor.pulled(), "obj_actor"@) {
        Ok(actor) => {
            let r2 = Rows { obj_ctr: r1.obj_ctr.rest(), ..r1 };
            match or_null(r1.obj_ctr.pulled(), "obj_ctr"@) {
                Ok(ctr) => (obj_of(actor, ctr), r2),
                Err(e) => (Err(e), r2),
            }
        },
        Err(e) => (Err(e), r1),
    }
}

pub open spec fn read_key(r: Rows) -> (Result<KeyModel, ReadFault>, Rows) {
    let r1 = Rows { key_actor: r.key_actor.rest(), ..r };
    match or_null_actor(r.key_actor.pulled(), "key_actor"@) {
        Ok(actor) => {
            let r2 = Rows { key_ctr: r1.key_ctr.rest(), ..r1 };
            match or_null(r1.key_ctr.pulled(), "key_ctr"@) {
                Ok(ctr) => {
                    let r3 = Rows { key_str: r2.key_str.rest(), ..r2 };
                    match or_null(r2.key_str.pulled(), "key_str"@) {
                        Ok(text) => (key_of(actor, ctr, text), r3),
                        Err(e) => (Err(e), r3),
                    }
                },
                Err(e) => (Err(e), r2),
            }
        },
        Err(e) => (Err(e), r1),
    }
}

pub open spec fn read_value(r: Rows) -> (Result<ScalarModel, ReadFault>, Rows) {
    let r1 = Rows { meta: r.meta.rest(), ..r };
    match r.meta.pulled() {
        Pulled::Cell(Some(meta)) => {
            let len = ValueMeta(meta).spec_length();
            if len > r1.value.len() {
                (Err(invalid("value"@, "raw value bytes truncated"@)), r1)
            } else {
                (
                    value_of(meta, r1.value.take(len as int)),
                    Rows { value: r1.value.skip(len as int), ..r1 },
                )
            }
        },
        Pulled::Malformed(reason) => (
            Err(ReadFault::Decode(cells::malformed("value_meta"@, reason))),
            r1,
        ),
        _ => (Err(missing("value_meta"@)), r1),
    }
}

/// The next `n` predecessors.
pub open spec fn read_pred_list(r: Rows, n: nat) -> (Result<Seq<OpId>, ReadFault>, Rows)
    decreases n,
{
    if n == 0 {
        (Ok(Seq::empty()), r)
    } else {
        let r1 = Rows { pred_actor: r.pred_actor.rest(), ..r };
        match or_null_actor(r.pred_actor.pulled(), "pred_actor"@) {
            Ok(actor) => {
                let r2 = Rows { pred_ctr: r1.pred_ctr.rest(), ..r1 };
                match or_null(r1.pred_ctr.pulled(), "pred_ctr"@) {
                    Ok(ctr) => match pred_of(actor, ctr) {
                        Ok(id) => {
                            let (more, r3) = read_pred_list(r2, (n - 1) as nat);
                            match more {
                                Ok(ids) => (Ok(seq![id] + ids), r3),
                                Err(e) => (Err(e), r3),
                            }
                        },
                        Err(e) => (Err(e), r2),
                    },
                    Err(e) => (Err(e), r2),
                }
            },
            Err(e) => (Err(e), r1),
        }
    }
}

pub open spec fn read_preds(r: Rows) -> (Result<Seq<OpId>, ReadFault>, Rows) {
    let r1 = Rows { pred_count: r.pred_count.rest(), ..r };
    match or_null(r.pred_count.pulled(), "pred_count"@) {
        Ok(Some(n)) => read_pred_list(r1, n as nat),
        Ok(None) => (Ok(Seq::empty()), r1),
        Err(e) => (Err(e), r1),
    }
}

/// The flags at the end of a row: whether a mark expands, and its name.
pub open spec fn read_mark(r: Rows) -> (Result<(bool, Option<Seq<char>>), ReadFault>, Rows) {
    let r1 = Rows { expand: r.expand.rest(), ..r };
    match or_false(r.expand.pulled(), "expand"@) {
        Ok(expand) => {
            let r2 = Rows { mark_name: r1.mark_name.rest(), ..r1 };
            match or_null(r1.mark_name.pulled(), "mark_name"@) {
                Ok(name) => (Ok((expand, name)), r2),
                Err(e) => (Err(e), r2),
            }
        },
        Err(e) => (Err(e), r1),
    }
}

pub open spec fn read_insert(r: Rows) -> (Result<bool, ReadFault>, Rows) {
    (or_false(r.insert.pulled(), "insert"@), Rows { insert: r.insert.rest(), ..r })
}

/// The id of the operation that is being read.
pub open spec fn read_id(r: Rows) -> (Result<OpId, ReadFault>, Rows) {
    match op_id_of((r.start_op + r.next_idx) as int, 0) {
        Ok(id) => (Ok(id), Rows { next_idx: r.next_idx + 1, ..r }),
        Err(e) => (Err(e), r),
    }
}

/// A row behind its action.
#[verifier::opaque]
pub open spec fn read_op(action: Action, r: Rows) -> (Result<OpModel, ReadFault>, Rows) {
    match read_obj(r) {
        (Err(e), r) => (Err(e), r),
        (Ok(obj), r) => match read_key(r) {
            (Err(e), r) => (Err(e), r),
            (Ok(key), r) => match read_insert(r) {
                (Err(e), r) => (Err(e), r),
                (Ok(insert), r) => match read_value(r) {
                    (Err(e), r) => (Err(e), r),
                    (Ok(value), r) => match read_preds(r) {
                        (Err(e), r) => (Err(e), r),
                        (Ok(pred), r) => match read_mark(r) {
                            (Err(e), r) => (Err(e), r),
                            (Ok((expand, mark_name)), r) => if !value_allowed(action, value) {
                                (Err(ReadFault::InvalidOpType(InvalidOpType::NonNumericInc)), r)
                            } else {
                                match read_id(r) {
                                    (Err(e), r) => (Err(e), r),
                                    (Ok(id), r) => (
                                        Ok(
                                            OpModel {
                                                id,
                                                obj,
                                                action,
                                                key,
                                                value,
                                                insert,
                                                expand,
                                                mark_name,
                                                pred,
                                            },
                                        ),
                                        r,
                                    ),
                                }
                            },
                        },
                    },
                },
            },
        },
    }
}

/// The next operation; `None` behind the last.
#[verifier::opaque]
pub open spec fn read_row(r: Rows) -> (Result<Option<OpModel>, ReadFault>, Rows) {
    let r1 = Rows { action: r.action.rest(), ..r };
    match r.action.pulled() {
        Pulled::End => (Ok(None), r1),
        Pulled::Malformed(reason) => (
            Err(ReadFault::Decode(cells::malformed("action"@, reason))),
            r1,
        ),
        Pulled::Cell(cell) => match action_of(cell) {
            Err(e) => (Err(e), r1),
            Ok(action) => match read_op(action, r1) {
                (Ok(op), r2) => (Ok(Some(op)), r2),
                (Err(e), r2) => (Err(e), r2),
            },
        },
    }
}

/// All operations up to the end or the first error, and that error.
pub open spec fn read_all(r: Rows) -> (Seq<OpModel>, Option<ReadFault>)
    decreases r.action.cells.len(),
{
    match read_row(r) {
        (Ok(Some(op)), r2) => if r2.action.cells.len() < r.action.cells.len() {
            let (ops, e) = read_all(r2);
            (seq![op] + ops, e)
        } else {
            (Seq::empty(), None)
        },
        (Ok(None), _) => (Seq::empty(), None),
        (Err(e), _) => (Seq::empty(), Some(e)),
    }
}

// The columns of a change.

/// A change without columns.
pub open spec fn no_rows(start_op: nat) -> Rows {
    let none = Seq::<u8>::empty();
    Rows {
        obj_actor: cells::uint_col(none),
        obj_ctr: cells::uint_col(none),
        key_actor: cells::uint_col(none),
        key_ctr: cells::delta_col(none),
        key_str: cells::text_col(none),
        insert: cells::bool_col(none),
        action: cells::uint_col(none),
        meta: cells::uint_col(none),
        pred_count: cells::uint_col(none),
        pred_actor: cells::uint_col(none),
        pred_ctr: cells::delta_col(none),
        expand: cells::bool_col(none),
        mark_name: cells::text_col(none),
        value: none,
        start_op,
        next_idx: 0,
    }
}

/// The rows with one more column, which must be one that operations have.
pub open spec fn place(r: Rows, col: RawColumn, data: Seq<u8>) -> Result<Rows, ParseError> {
    let d = data.subrange(col.data.start as int, col.data.end as int);
    let id = col.spec.spec_id().0;
    let ty = col.spec.spec_type();
    if id == 0 && ty is Actor {
        Ok(Rows { obj_actor: cells::uint_col(d), ..r })
    } else if id == 0 && ty is Integer {
        Ok(Rows { obj_ctr: cells::uint_col(d), ..r })
    } else if id == 1 && ty is Actor {
        Ok(Rows { key_actor: cells::uint_col(d), ..r })
    } else if id == 1 && ty is DeltaInteger {
        Ok(Rows { key_ctr: cells::delta_col(d), ..r })
    } else if id == 1 && ty is String {
        Ok(Rows { key_str: cells::text_col(d), ..r })
    } else if id == 3 && ty is Boolean {
        Ok(Rows { insert: cells::bool_col(d), ..r })
    } else if id == 4 && ty is Integer {
        Ok(Rows { action: cells::uint_col(d), ..r })
    } else if id == 5 && ty is ValueMetadata {
        Ok(Rows { meta: cells::uint_col(d), ..r })
    } else if id == 5 && ty is Value {
        Ok(Rows { value: d, ..r })
    } else if id == 7 && ty is Group {
        Ok(Rows { pred_count: cells::uint_col(d), ..r })
    } else if id == 7 && ty is Actor {
        Ok(Rows { pred_actor: cells::uint_col(d), ..r })
    } else if id == 7 && ty is DeltaInteger {
        Ok(Rows { pred_ctr: cells::delta_col(d), ..r })
    } else if id == 9 && ty is Boolean {
        Ok(Rows { expand: cells::bool_col(d), ..r })
    } else if id == 10 && ty is String {
        Ok(Rows { mark_name: cells::text_col(d), ..r })
    } else {
        Err(ParseError::InvalidOpColumn(col.spec.0))
    }
}

/// The rows of the first `n` columns. Of two columns of one specification the
/// later counts.
pub open spec fn place_all(cols: Seq<RawColumn>, data: Seq<u8>, start_op: nat, n: nat) -> Result<
    Rows,
    ParseError,
>
    decreases n,
{
    if n == 0 {
        Ok(no_rows(start_op))
    } else {
        match place_all(cols, data, start_op, (n - 1) as nat) {
            Ok(r) => place(r, cols[n - 1], data),
            Err(e) => Err(e),
        }
    }
}

/// The rows of the columns of a change.
pub open spec fn rows_of(cols: Seq<RawColumn>, data: Seq<u8>, start_op: nat) -> Result<
    Rows,
    ParseError,
> {
    place_all(cols, data, start_op, cols.len())
}

// The decisions on cells.

fn missing_error(col: &str) -> (r: ReadChangeOpError)
    ensures
        r@ == missing(col@),
{
    ReadChangeOpError::from(DecodeColumnError::unexpected_null(col))
}

fn invalid_error(col: &str, reason: &str) -> (r: ReadChangeOpError)
    ensures
        r@ == invalid(col@, reason@),
{
    ReadChangeOpError::from(DecodeColumnError::invalid_value(col, reason))
}

/// What a result stands for, where its value stands for itself.
pub open spec fn outcome<T>(r: Result<T, ReadChangeOpError>) -> Result<T, ReadFault> {
    match r {
        Ok(v) => Ok(v),
        Err(e) => Err(e@),
    }
}

/// What a result stands for.
pub open spec fn outcome_view<T: View>(r: Result<T, ReadChangeOpError>) -> Result<T::V, ReadFault> {
    match r {
        Ok(v) => Ok(v@),
        Err(e) => Err(e@),
    }
}

/// The id of an operation, where its counter fits.
pub fn try_op_id(counter: u64, actor: u32) -> (r: Result<OpId, ReadChangeOpError>)
    ensures
        outcome(r) == op_id_of(counter as int, actor),
{
    match OpId::try_new(counter, actor as usize) {
        Ok(id) => Ok(id),
        Err(_) => Err(ReadChangeOpError::CounterTooLarge),
    }
}

fn try_signed_op_id(counter: i64, actor: u32) -> (r: Result<OpId, ReadChangeOpError>)
    ensures
        outcome(r) == op_id_of(counter as int, actor),
{
    if counter < 0 {
        Err(ReadChangeOpError::CounterTooLarge)
    } else {
        try_op_id(counter as u64, actor)
    }
}

/// The action that a cell stands for.
pub fn decide_action(cell: Option<u64>) -> (r: Result<Action, ReadChangeOpError>)
    ensures
        outcome(r) == action_of(cell),
{
    match cell {
        Some(code) => match Action::from_code(code) {
            Some(action) => Ok(action),
            None => Err(invalid_error("action", "unknown action")),
        },
        None => Err(missing_error("action")),
    }
}

/// The index of an actor, where it fits.
pub fn decide_actor(cell: Option<u64>, col: &str) -> (r: Result<Option<u32>, ReadChangeOpError>)
    ensures
        outcome(r) == actor_of(cell, col@),
{
    match cell {
        Some(v) => if v <= 0xffff_ffff {
            Ok(Some(v as u32))
        } else {
            Err(invalid_error(col, "actor index too large"))
        },
        None => Ok(None),
    }
}

/// The object that an actor and a counter stand for.
pub fn decide_obj(actor: Option<u32>, ctr: Option<u64>) -> (r: Result<ObjId, ReadChangeOpError>)
    ensures
        outcome(r) == obj_of(actor, ctr),
{
    match (actor, ctr) {
        (None, None) => Ok(ObjId::root()),
        (_, Some(0)) => Ok(ObjId::root()),
        (Some(a), Some(c)) => match try_op_id(c, a) {
            Ok(id) => Ok(ObjId(id)),
            Err(e) => Err(e),
        },
        (None, Some(_)) => Err(missing_error("obj_actor")),
        (Some(_), None) => Err(missing_error("obj_ctr")),
    }
}

/// The key that the cells of the key columns stand for.
pub fn decide_key(actor: Option<u32>, ctr: Option<i64>, text: Option<String>) -> (r: Result<
    KeyRef,
    ReadChangeOpError,
>)
    ensures
        outcome_view(r) == key_of(actor, ctr, cells::opt_text(text)),
{
    match (actor, ctr, text) {
        (None, None, Some(s)) => Ok(KeyRef::Prop(s)),
        (None, Some(0), None) => Ok(KeyRef::Elem(ElemId::head())),
        (Some(a), Some(c), None) => match try_signed_op_id(c, a) {
            Ok(id) => Ok(KeyRef::Elem(ElemId(id))),
            Err(e) => Err(e),
        },
        _ => Err(invalid_error("key", "ambiguous or incomplete key columns")),
    }
}

/// The predecessor that an actor and a counter stand for.
pub fn decide_pred(actor: Option<u32>, ctr: Option<i64>) -> (r: Result<OpId, ReadChangeOpError>)
    ensures
        outcome(r) == pred_of(actor, ctr),
{
    match (actor, ctr) {
        (Some(a), Some(c)) => try_signed_op_id(c, a),
        _ => Err(missing_error("pred")),
    }
}

/// The value that `raw` holds. A number must take all of it.
pub fn decide_value(meta: u64, raw: &[u8]) -> (r: Result<ScalarValue, ReadChangeOpError>)
    ensures
        outcome_view(r) == value_of(meta, raw@),
{
    let meta = ValueMeta(meta);
    proof {
        leb::lemma_uleb_read_bounds(raw@, 0);
        leb::lemma_sleb_read_bounds(raw@, 0);
    }
    match meta.type_code() {
        ValueType::Uleb => match leb::read_unsigned(raw) {
            None => {
                return Err(invalid_error("value", "bad uleb"));
            },
            Some((_, n)) => {
                if n != raw.len() {
                    return Err(invalid_error("value", "extra bytes"));
                }
            },
        },
        ValueType::Leb | ValueType::Counter | ValueType::Timestamp => match leb::read_signed(raw) {
            None => {
                return Err(invalid_error("value", "bad leb"));
            },
            Some((_, n)) => {
                if n != raw.len() {
                    return Err(invalid_error("value", "extra bytes"));
                }
            },
        },
        _ => {},
    }
    match ScalarValue::from_raw(meta, raw) {
        Ok(v) => Ok(v),
        Err(types::ReadScalarError::InvalidLeb) => Err(invalid_error("value", "invalid leb128")),
        Err(types::ReadScalarError::InvalidFloat) => Err(invalid_error("value", "invalid float")),
        Err(types::ReadScalarError::InvalidUtf8) => Err(invalid_error("value", "invalid utf8")),
    }
}

// The readers.

fn uint_or_null(col: &mut UintColumn<'_>, name: &str) -> (r: Result<Option<u64>, ReadChangeOpError>)
    ensures
        final(col)@ == old(col)@.rest(),
        outcome(r) == or_null(old(col)@.pulled(), name@),
{
    match col.pull(name) {
        Ok(Some(cell)) => Ok(cell),
        Ok(None) => Ok(None),
        Err(e) => Err(ReadChangeOpError::DecodeError(e)),
    }
}

fn actor_or_null(col: &mut UintColumn<'_>, name: &str) -> (r: Result<
    Option<u32>,
    ReadChangeOpError,
>)
    ensures
        final(col)@ == old(col)@.rest(),
        outcome(r) == or_null_actor(old(col)@.pulled(), name@),
{
    match uint_or_null(col, name) {
        Ok(cell) => decide_actor(cell, name),
        Err(e) => Err(e),
    }
}

fn delta_or_null(col: &mut DeltaColumn<'_>, name: &str) -> (r: Result<
    Option<i64>,
    ReadChangeOpError,
>)
    ensures
        final(col)@ == old(col)@.rest(),
        outcome(r) == or_null(old(col)@.pulled(), name@),
{
    match col.pull(name) {
        Ok(Some(cell)) => Ok(cell),
        Ok(None) => Ok(None),
        Err(e) => Err(ReadChangeOpError::DecodeError(e)),
    }
}

/// What a result that may hold a text stands for.
pub open spec fn outcome_text(r: Result<Option<String>, ReadChangeOpError>) -> Result<
    Option<Seq<char>>,
    ReadFault,
> {
    match r {
        Ok(v) => Ok(cells::opt_text(v)),
        Err(e) => Err(e@),
    }
}

fn text_or_null(col: &mut TextColumn<'_>, name: &str) -> (r: Result<
    Option<String>,
    ReadChangeOpError,
>)
    ensures
        final(col)@ == old(col)@.rest(),
        outcome_text(r) == or_null(old(col)@.pulled(), name@),
{
    match col.pull(name) {
        Ok(Some(cell)) => Ok(cell),
        Ok(None) => Ok(None),
        Err(e) => Err(ReadChangeOpError::DecodeError(e)),
    }
}

fn bool_or_false(col: &mut BoolColumn<'_>, name: &str) -> (r: Result<bool, ReadChangeOpError>)
    ensures
        final(col)@ == old(col)@.rest(),
        outcome(r) == or_false(old(col)@.pulled(), name@),
{
    match col.pull(name) {
        Ok(Some(cell)) => Ok(cell),
        Ok(None) => Ok(false),
        Err(e) => Err(ReadChangeOpError::DecodeError(e)),
    }
}

/// The columns of a change, side by side.
struct Inner<'a> {
    obj_actor: UintColumn<'a>,
    obj_ctr: UintColumn<'a>,
    key_actor: UintColumn<'a>,
    key_ctr: DeltaColumn<'a>,
    key_str: TextColumn<'a>,
    insert: BoolColumn<'a>,
    action: UintColumn<'a>,
    meta: UintColumn<'a>,
    pred_count: UintColumn<'a>,
    pred_actor: UintColumn<'a>,
    pred_ctr: DeltaColumn<'a>,
    expand: BoolColumn<'a>,
    mark_name: TextColumn<'a>,
    value: &'a [u8],
    start_op: u64,
    next_idx: u64,
}

impl<'a> View for Inner<'a> {
    type V = Rows;

    closed spec fn view(&self) -> Rows {
        Rows {
            obj_actor: self.obj_actor@,
            obj_ctr: self.obj_ctr@,
            key_actor: self.key_actor@,
            key_ctr: self.key_ctr@,
            key_str: self.key_str@,
            insert: self.insert@,
            action: self.action@,
            meta: self.meta@,
            pred_count: self.pred_count@,
            pred_actor: self.pred_actor@,
            pred_ctr: self.pred_ctr@,
            expand: self.expand@,
            mark_name: self.mark_name@,
            value: self.value@,
            start_op: self.start_op as nat,
            next_idx: self.next_idx as nat,
        }
    }
}

impl<'a> Clone for Inner<'a> {
    fn clone(&self) -> (r: Self)
        ensures
            r@ == self@,
    {
        Inner {
            obj_actor: self.obj_actor.clone(),
            obj_ctr: self.obj_ctr.clone(),
            key_actor: self.key_actor.clone(),
            key_ctr: self.key_ctr.clone(),
            key_str: self.key_str.clone(),
            insert: self.insert.clone(),
            action: self.action.clone(),
            meta: self.meta.clone(),
            pred_count: self.pred_count.clone(),
            pred_actor: self.pred_actor.clone(),
            pred_ctr: self.pred_ctr.clone(),
            expand: self.expand.clone(),
            mark_name: self.mark_name.clone(),
            value: self.value,
            start_op: self.start_op,
            next_idx: self.next_idx,
        }
    }
}

impl<'a> Inner<'a> {
    fn try_new(cols: &RawColumns, data: &'a [u8], start_op: u64) -> (r: Result<Self, ParseError>)
        requires
            columns::within(cols@, data@.len()),
        ensures
            match r {
                Ok(inner) => rows_of(cols@, data@, start_op as nat) == Ok::<_, ParseError>(inner@),
                Err(e) => rows_of(cols@, data@, start_op as nat) == Err::<Rows, _>(e),
            },
    {
        let none = &data[0..0];
        assert(none@ =~= Seq::<u8>::empty());
        let mut inner = Inner {
            obj_actor: UintColumn::new(none),
            obj_ctr: UintColumn::new(none),
            key_actor: UintColumn::new(none),
            key_ctr: DeltaColumn::new(none),
            key_str: TextColumn::new(none),
            insert: BoolColumn::new(none),
            action: UintColumn::new(none),
            meta: UintColumn::new(none),
            pred_count: UintColumn::new(none),
            pred_actor: UintColumn::new(none),
            pred_ctr: DeltaColumn::new(none),
            expand: BoolColumn::new(none),
            mark_name: TextColumn::new(none),
            value: none,
            start_op,
            next_idx: 0,
        };
        assert(inner@ == no_rows(start_op as nat));
        let mut i: usize = 0;
        while i < cols.0.len()
            invariant
                i <= cols@.len(),
                columns::within(cols@, data@.len()),
                place_all(cols@, data@, start_op as nat, i as nat) == Ok::<_, ParseError>(inner@),
            decreases cols@.len() - i,
        {
            let col = &cols.0[i];
            let d = &data[col.data.start..col.data.end];
            let id: u32 = col.spec.id().0;
            match (id, col.spec.col_type()) {
                (0, ColumnType::Actor) => {
                    inner.obj_actor = UintColumn::new(d);
                },
                (0, ColumnType::Integer) => {
                    inner.obj_ctr = UintColumn::new(d);
                },
                (1, ColumnType::Actor) => {
                    inner.key_actor = UintColumn::new(d);
                },
                (1, ColumnType::DeltaInteger) => {
                    inner.key_ctr = DeltaColumn::new(d);
                },
                (1, ColumnType::String) => {
                    inner.key_str = TextColumn::new(d);
                },
                (3, ColumnType::Boolean) => {
                    inner.insert = BoolColumn::new(d);
                },
                (4, ColumnType::Integer) => {
                    inner.action = UintColumn::new(d);
                },
                (5, ColumnType::ValueMetadata) => {
                    inner.meta = UintColumn::new(d);
                },
                (5, ColumnType::Value) => {
                    inner.value = d;
                },
                (7, ColumnType::Group) => {
                    inner.pred_count = UintColumn::new(d);
                },
                (7, ColumnType::Actor) => {
                    inner.pred_actor = UintColumn::new(d);
                },
                (7, ColumnType::DeltaInteger) => {
                    inner.pred_ctr = DeltaColumn::new(d);
                },
                (9, ColumnType::Boolean) => {
                    inner.expand = BoolColumn::new(d);
                },
                (10, ColumnType::String) => {
                    inner.mark_name = TextColumn::new(d);
                },
                _ => {
                    proof {
                        lemma_place_error(cols@, data@, start_op as nat, (i + 1) as nat);
                    }
                    return Err(ParseError::InvalidOpColumn(col.spec.0));
                },
            }
            i += 1;
        }
        Ok(inner)
    }

    fn read_obj(&mut self) -> (r: Result<ObjId, ReadChangeOpError>)
        ensures
            (outcome(r), final(self)@) == read_obj(old(self)@),
    {
        let actor: Option<u32> = match actor_or_null(&mut self.obj_actor, "obj_actor") {
            Ok(actor) => actor,
            Err(e) => {
                return Err(e);
            },
        };
        let ctr: Option<u64> = match uint_or_null(&mut self.obj_ctr, "obj_ctr") {
            Ok(ctr) => ctr,
            Err(e) => {
                return Err(e);
            },
        };
        decide_obj(actor, ctr)
    }

    fn read_key(&mut self) -> (r: Result<KeyRef, ReadChangeOpError>)
        ensures
            (outcome_view(r), final(self)@) == read_key(old(self)@),
    {
        let actor: Option<u32> = match actor_or_null(&mut self.key_actor, "key_actor") {
            Ok(actor) => actor,
            Err(e) => {
                return Err(e);
            },
        };
        let ctr: Option<i64> = match delta_or_null(&mut self.key_ctr, "key_ctr") {
            Ok(ctr) => ctr,
            Err(e) => {
                return Err(e);
            },
        };
        let text: Option<String> = match text_or_null(&mut self.key_str, "key_str") {
            Ok(text) => text,
            Err(e) => {
                return Err(e);
            },
        };
        decide_key(actor, ctr, text)
    }

    fn read_value(&mut self) -> (r: Result<ScalarValue, ReadChangeOpError>)
        ensures
            (outcome_view(r), final(self)@) == read_value(old(self)@),
    {
        let meta: u64 = match self.meta.pull("value_meta") {
            Ok(Some(Some(meta))) => meta,
            Ok(_) => {
                return Err(missing_error("value_meta"));
            },
            Err(e) => {
                return Err(ReadChangeOpError::DecodeError(e));
            },
        };
        let len: u64 = ValueMeta(meta).length();
        if (self.value.len() as u64) < len {
            return Err(invalid_error("value", "raw value bytes truncated"));
        }
        let (raw, tail) = self.value.split_at(len as usize);
        proof {
            assert(raw@ =~= self.value@.take(len as int));
            assert(tail@ =~= self.value@.skip(len as int));
        }
        self.value = tail;
        decide_value(meta, raw)
    }

    fn read_preds(&mut self) -> (r: Result<Vec<OpId>, ReadChangeOpError>)
        ensures
            (outcome_view(r), final(self)@) == read_preds(old(self)@),
    {
        let count: u64 = match uint_or_null(&mut self.pred_count, "pred_count") {
            Ok(Some(n)) => n,
            Ok(None) => 0,
            Err(e) => {
                return Err(e);
            },
        };
        let mut pred: Vec<OpId> = Vec::new();
        let mut done: u64 = 0;
        let ghost r0 = self@;
        proof {
            match read_pred_list(r0, count as nat) {
                (Ok(ids), _) => assert(pred@ + ids =~= ids),
                (Err(_), _) => {},
            }
        }
        while done < count
            invariant
                done <= count,
                read_preds(old(self)@) == read_pred_list(r0, count as nat),
                read_pred_list(r0, count as nat) == match read_pred_list(
                    self@,
                    (count - done) as nat,
                ) {
                    (Ok(ids), rows) => (Ok(pred@ + ids), rows),
                    (Err(e), rows) => (Err::<Seq<OpId>, ReadFault>(e), rows),
                },
            decreases count - done,
        {
            let ghost before = pred@;
            let actor: Option<u32> = match actor_or_null(&mut self.pred_actor, "pred_actor") {
                Ok(actor) => actor,
                Err(e) => {
                    return Err(e);
                },
            };
            let ctr: Option<i64> = match delta_or_null(&mut self.pred_ctr, "pred_ctr") {
                Ok(ctr) => ctr,
                Err(e) => {
                    return Err(e);
                },
            };
            let id: OpId = match decide_pred(actor, ctr) {
                Ok(id) => id,
                Err(e) => {
                    return Err(e);
                },
            };
            pred.push(id);
            proof {
                match read_pred_list(self@, (count - done - 1) as nat) {
                    (Ok(ids), _) => assert(before + (seq![id] + ids) =~= pred@ + ids),
                    (Err(_), _) => {},
                }
            }
            done += 1;
        }
        assert(pred@ + Seq::<OpId>::empty() =~= pred@);
        Ok(pred)
    }

    fn read_mark(&mut self) -> (r: Result<(bool, Option<String>), ReadChangeOpError>)
        ensures
            (
                match r {
                    Ok((expand, name)) => Ok((expand, cells::opt_text(name))),
                    Err(e) => Err(e@),
                },
                final(self)@,
            ) == read_mark(old(self)@),
    {
        let expand: bool = match bool_or_false(&mut self.expand, "expand") {
            Ok(expand) => expand,
            Err(e) => {
                return Err(e);
            },
        };
        match text_or_null(&mut self.mark_name, "mark_name") {
            Ok(name) => Ok((expand, name)),
            Err(e) => Err(e),
        }
    }

    fn read_id(&mut self) -> (r: Result<OpId, ReadChangeOpError>)
        ensures
            (outcome(r), final(self)@) == read_id(old(self)@),
    {
        if self.start_op > 0xffff_ffff || self.next_idx > 0xffff_ffff {
            return Err(ReadChangeOpError::CounterTooLarge);
        }
        match try_op_id(self.start_op + self.next_idx, 0) {
            Ok(id) => {
                self.next_idx += 1;
                Ok(id)
            },
            Err(e) => Err(e),
        }
    }

    fn read_op(&mut self, action: Action) -> (r: Result<OpBuilder, ReadChangeOpError>)
        ensures
            (outcome_view(r), final(self)@) == read_op(action, old(self)@),
    {
        proof {
            reveal(read_op);
        }
        let obj: ObjId = match self.read_obj() {
            Ok(obj) => obj,
            Err(e) => {
                return Err(e);
            },
        };
        let key: KeyRef = match self.read_key() {
            Ok(key) => key,
            Err(e) => {
                return Err(e);
            },
        };
        let insert: bool = match bool_or_false(&mut self.insert, "insert") {
            Ok(insert) => insert,
            Err(e) => {
                return Err(e);
            },
        };
        let value: ScalarValue = match self.read_value() {
            Ok(value) => value,
            Err(e) => {
                return Err(e);
            },
        };
        let pred: Vec<OpId> = match self.read_preds() {
            Ok(pred) => pred,
            Err(e) => {
                return Err(e);
            },
        };
        let (expand, mark_name): (bool, Option<String>) = match self.read_mark() {
            Ok(mark) => mark,
            Err(e) => {
                return Err(e);
            },
        };
        if matches!(action, Action::Increment) && !matches!(
            value,
            ScalarValue::Int(_) | ScalarValue::Uint(_)
        ) {
            return Err(ReadChangeOpError::InvalidOpType(InvalidOpType::NonNumericInc));
        }
        let id: OpId = match self.read_id() {
            Ok(id) => id,
            Err(e) => {
                return Err(e);
            },
        };
        Ok(OpBuilder { id, obj, action, key, value, insert, expand, mark_name, pred })
    }

    fn try_next(&mut self) -> (r: Result<Option<OpBuilder>, ReadChangeOpError>)
        ensures
            (
                match r {
                    Ok(Some(op)) => Ok(Some(op@)),
                    Ok(None) => Ok(None),
                    Err(e) => Err(e@),
                },
                final(self)@,
            ) == read_row(old(self)@),
    {
        proof {
            reveal(read_row);
        }
        let cell: Option<u64> = match self.action.pull("action") {
            Ok(Some(cell)) => cell,
            Ok(None) => {
                return Ok(None);
            },
            Err(e) => {
                return Err(ReadChangeOpError::DecodeError(e));
            },
        };
        let action: Action = match decide_action(cell) {
            Ok(action) => action,
            Err(e) => {
                return Err(e);
            },
        };
        match self.read_op(action) {
            Ok(op) => Ok(Some(op)),
            Err(e) => Err(e),
        }
    }
}

proof fn lemma_place_error(cols: Seq<RawColumn>, data: Seq<u8>, start_op: nat, n: nat)
    requires
        n <= cols.len(),
        place_all(cols, data, start_op, n) is Err,
    ensures
        rows_of(cols, data, start_op) == place_all(cols, data, start_op, n),
    decreases cols.len() - n,
{
    if n < cols.len() {
        lemma_place_error(cols, data, start_op, n + 1);
    }
}

/// A read row takes one action, and its operation has the next id.
pub proof fn lemma_read_row(r: Rows)
    ensures
        match read_row(r) {
            (Ok(Some(op)), r2) => {
                &&& r.action.cells.len() > 0
                &&& r2.action == r.action.rest()
                &&& r2.start_op == r.start_op
                &&& r2.next_idx == r.next_idx + 1
                &&& op.id.counter == r.start_op + r.next_idx
                &&& op.id.actor == 0
                &&& value_allowed(op.action, op.value)
            },
            (Ok(None), r2) => r2 == r && r.action.cells.len() == 0 && r.action.fault is None,
            (Err(_), _) => true,
        },
{
    reveal(read_op);
    reveal(read_row);
    lemma_read_preds(r);
    match read_row(r) {
        (Ok(Some(_)), _) => {
            let r1 = Rows { action: r.action.rest(), ..r };
            let r2 = read_obj(r1).1;
            let r3 = read_key(r2).1;
            let r4 = read_insert(r3).1;
            let r5 = read_value(r4).1;
            lemma_read_preds(r5);
        },
        _ => {},
    }
}

proof fn lemma_read_pred_list(r: Rows, n: nat)
    ensures
        ({
            let r2 = read_pred_list(r, n).1;
            r2 == Rows { pred_actor: r2.pred_actor, pred_ctr: r2.pred_ctr, ..r }
        }),
    decreases n,
{
    if n > 0 {
        let r1 = Rows { pred_actor: r.pred_actor.rest(), ..r };
        let r2 = Rows { pred_ctr: r1.pred_ctr.rest(), ..r1 };
        lemma_read_pred_list(r2, (n - 1) as nat);
    }
}

proof fn lemma_read_preds(r: Rows)
    ensures
        ({
            let r2 = read_preds(r).1;
            r2 == Rows {
                pred_count: r.pred_count.rest(),
                pred_actor: r2.pred_actor,
                pred_ctr: r2.pred_ctr,
                ..r
            }
        }),
{
    let r1 = Rows { pred_count: r.pred_count.rest(), ..r };
    match or_null(r.pred_count.pulled(), "pred_count"@) {
        Ok(Some(n)) => lemma_read_pred_list(r1, n as nat),
        _ => {},
    }
}

/// The operations of a change have consecutive ids from its start on, all of
/// them by the author of the change.
pub proof fn ids_are_consecutive(r: Rows)
    ensures
        forall|i: int|
            0 <= i < read_all(r).0.len() ==> (#[trigger] read_all(r).0[i]).id.counter == r.start_op
                + r.next_idx + i && read_all(r).0[i].id.actor == 0,
    decreases r.action.cells.len(),
{
    lemma_read_row(r);
    match read_row(r) {
        (Ok(Some(op)), r2) => {
            ids_are_consecutive(r2);
            let (ops, e) = read_all(r2);
            assert(read_all(r).0 == seq![op] + ops);
            assert forall|i: int| 0 <= i < read_all(r).0.len() implies (
            #[trigger] read_all(r).0[i]).id.counter == r.start_op + r.next_idx + i && read_all(
                r,
            ).0[i].id.actor == 0 by {
                if i > 0 {
                    assert(read_all(r).0[i] == ops[i - 1]);
                }
            }
        },
        _ => {},
    }
}

/// Reading ends exactly where the actions do, whatever the other columns still
/// hold, and stays there. A null action is an error.
pub proof fn rows_end_with_their_actions(r: Rows)
    ensures
        read_row(r).0 == Ok::<Option<OpModel>, ReadFault>(None) <==> r.action.pulled() is End,
        r.action.pulled() is End ==> read_row(r).1 == r,
        r.action.pulled() == Pulled::Cell(None::<u64>) ==> read_row(r).0 == Err::<
            Option<OpModel>,
            _,
        >(missing("action"@)),
{
    reveal(read_row);
}

/// What a row reads does not depend on its place, but for its id.
proof fn lemma_read_pred_list_placed(r: Rows, n: nat, start_op: nat, next_idx: nat)
    ensures
        read_pred_list(Rows { start_op, next_idx, ..r }, n) == (
            read_pred_list(r, n).0,
            Rows { start_op, next_idx, ..read_pred_list(r, n).1 },
        ),
    decreases n,
{
    if n > 0 {
        let r1 = Rows { pred_actor: r.pred_actor.rest(), ..r };
        let r2 = Rows { pred_ctr: r1.pred_ctr.rest(), ..r1 };
        lemma_read_pred_list_placed(r2, (n - 1) as nat, start_op, next_idx);
    }
}

/// A row that can be read at the very start can be read wherever its id fits in
/// 32 bits, and then has that id; where the id does not fit, that is the error.
/// A row that cannot be read takes no id.
pub proof fn ids_follow_the_rows(r: Rows)
    ensures
        read_row(Rows { start_op: 0, next_idx: 0, ..r }).0 matches Ok(Some(_)) ==> {
            let id = r.start_op + r.next_idx;
            &&& id <= u32::MAX ==> (read_row(r).0 matches Ok(Some(op)) && op.id == (OpId {
                counter: id as u32,
                actor: 0,
            }) && read_row(r).1.next_idx == r.next_idx + 1)
            &&& id > u32::MAX ==> read_row(r).0 == Err::<Option<OpModel>, _>(
                ReadFault::CounterTooLarge,
            )
        },
        read_row(r).0 is Err ==> read_row(r).1.next_idx == r.next_idx,
        read_row(r).1.start_op == r.start_op,
{
    reveal(read_op);
    reveal(read_row);
    let r1 = Rows { action: r.action.rest(), ..r };
    let r2 = read_obj(r1).1;
    let r3 = read_key(r2).1;
    let r4 = read_insert(r3).1;
    let r5 = read_value(r4).1;
    lemma_read_preds(r5);
    let first = Rows { start_op: 0, next_idx: 0, ..r };
    let f1 = Rows { action: first.action.rest(), ..first };
    let f2 = read_obj(f1).1;
    let f3 = read_key(f2).1;
    let f4 = read_insert(f3).1;
    let f5 = read_value(f4).1;
    lemma_read_preds(f5);
    assert(f2 == Rows { start_op: 0, next_idx: 0, ..r2 });
    assert(f3 == Rows { start_op: 0, next_idx: 0, ..r3 });
    assert(f4 == Rows { start_op: 0, next_idx: 0, ..r4 });
    assert(f5 == Rows { start_op: 0, next_idx: 0, ..r5 });
    match or_null(r5.pred_count.pulled(), "pred_count"@) {
        Ok(Some(n)) => {
            let p = Rows { pred_count: r5.pred_count.rest(), ..r5 };
            lemma_read_pred_list_placed(p, n as nat, 0, 0);
        },
        _ => {},
    }
    let r6 = read_preds(r5).1;
    let f6 = read_preds(f5).1;
    assert(read_preds(f5).0 == read_preds(r5).0);
    assert(f6 == Rows { start_op: 0, next_idx: 0, ..r6 });
    assert(read_mark(f6).0 == read_mark(r6).0);
}

/// The operations of a change up to the end or the first error, and that
/// error. A change with a column that operations do not have has none.
pub open spec fn ops_of(cols: Seq<RawColumn>, data: Seq<u8>, start_op: nat) -> (
    Seq<OpModel>,
    Option<ReadFault>,
) {
    match rows_of(cols, data, start_op) {
        Ok(r) => read_all(r),
        Err(_) => (Seq::empty(), None),
    }
}

/// What `next` yields, and what is left.
pub open spec fn next_of(r: Option<Rows>) -> (Option<Result<OpModel, ReadFault>>, Option<Rows>) {
    match r {
        None => (None, None),
        Some(r) => match read_row(r) {
            (Ok(Some(op)), r2) => (Some(Ok(op)), Some(r2)),
            (Ok(None), r2) => (None, Some(r2)),
            (Err(e), r2) => (Some(Err(e)), Some(r2)),
        },
    }
}

/// Reads the operations of a change that may be malformed. Actors are indices
/// into the actors of the change: its author is the first, the others follow.
pub struct ChangeOpIterUnverified<'a> {
    inner: Option<Inner<'a>>,
}

impl<'a> View for ChangeOpIterUnverified<'a> {
    type V = Option<Rows>;

    closed spec fn view(&self) -> Option<Rows> {
        match self.inner {
            Some(inner) => Some(inner@),
            None => None,
        }
    }
}

impl<'a> Clone for ChangeOpIterUnverified<'a> {
    fn clone(&self) -> (r: Self)
        ensures
            r@ == self@,
    {
        let inner = match &self.inner {
            Some(inner) => Some(inner.clone()),
            None => None,
        };
        ChangeOpIterUnverified { inner }
    }
}

impl<'a> ChangeOpIterUnverified<'a> {
    /// A reader of the columns. It yields nothing where one of them is none
    /// that operations have.
    pub fn new(raw: &RawColumns, data: &'a [u8], start_op: u64) -> (r: Self)
        requires
            columns::within(raw@, data@.len()),
        ensures
            r@ == match rows_of(raw@, data@, start_op as nat) {
                Ok(rows) => Some(rows),
                Err(_) => None,
            },
    {
        match Inner::try_new(raw, data, start_op) {
            Ok(inner) => ChangeOpIterUnverified { inner: Some(inner) },
            Err(_) => ChangeOpIterUnverified { inner: None },
        }
    }

    /// A reader of the columns; an error where one of them is none that
    /// operations have.
    pub fn try_new(raw: &RawColumns, data: &'a [u8], start_op: u64) -> (r: Result<Self, ParseError>)
        requires
            columns::within(raw@, data@.len()),
        ensures
            match r {
                Ok(it) => it@ is Some && rows_of(raw@, data@, start_op as nat) == Ok::<
                    _,
                    ParseError,
                >(it@->0),
                Err(e) => rows_of(raw@, data@, start_op as nat) == Err::<Rows, _>(e),
            },
    {
        match Inner::try_new(raw, data, start_op) {
            Ok(inner) => Ok(ChangeOpIterUnverified { inner: Some(inner) }),
            Err(e) => Err(e),
        }
    }

    pub fn next(&mut self) -> (r: Option<Result<OpBuilder, ReadChangeOpError>>)
        ensures
            (
                match r {
                    Some(item) => Some(outcome_view(item)),
                    None => None,
                },
                final(self)@,
            ) == next_of(old(self)@),
    {
        match &mut self.inner {
            Some(inner) => match inner.try_next() {
                Ok(Some(op)) => Some(Ok(op)),
                Ok(None) => None,
                Err(e) => Some(Err(e)),
            },
            None => None,
        }
    }
}

/// What is left of the columns gives operations only, no error.
pub open spec fn readable(r: Option<Rows>) -> bool {
    r matches Some(r) ==> read_all(r).1 is None
}

/// Reads the operations of a change that has been verified.
pub struct ChangeOpIter<'a> {
    iter: ChangeOpIterUnverified<'a>,
}

impl<'a> View for ChangeOpIter<'a> {
    type V = Option<Rows>;

    closed spec fn view(&self) -> Option<Rows> {
        self.iter@
    }
}

impl<'a> Clone for ChangeOpIter<'a> {
    fn clone(&self) -> (r: Self)
        ensures
            r@ == self@,
    {
        ChangeOpIter { iter: self.iter.clone() }
    }
}

impl<'a> ChangeOpIter<'a> {
    pub fn new(raw: &RawColumns, data: &'a [u8], start_op: u64) -> (r: Self)
        requires
            columns::within(raw@, data@.len()),
        ensures
            r@ == match rows_of(raw@, data@, start_op as nat) {
                Ok(rows) => Some(rows),
                Err(_) => None,
            },
    {
        ChangeOpIter { iter: ChangeOpIterUnverified::new(raw, data, start_op) }
    }

    pub fn next(&mut self) -> (r: Option<OpBuilder>)
        requires
            readable(old(self)@),
        ensures
            readable(final(self)@),
            final(self)@ == next_of(old(self)@).1,
            match r {
                Some(op) => next_of(old(self)@).0 == Some(Ok::<_, ReadFault>(op@)),
                None => next_of(old(self)@).0 is None,
            },
    {
        proof {
            match self@ {
                Some(rows) => lemma_read_row(rows),
                None => {},
            }
        }
        match self.iter.next() {
            Some(Ok(op)) => Some(op),
            _ => None,
        }
    }
}

// What rows say.

/// The cell at the front of a column, null where the column has ended.
pub open spec fn front<V>(col: Col<Option<V>>) -> Option<V> {
    if col.cells.len() > 0 {
        col.cells[0]
    } else {
        None
    }
}

/// The cell at the front of a column of booleans, `false` where the column has
/// ended.
pub open spec fn front_flag(col: Col<bool>) -> bool {
    col.cells.len() > 0 && col.cells[0]
}

/// The column has a cell, or has ended as it should.
pub open spec fn given<V>(col: Col<V>) -> bool {
    col.cells.len() > 0 || col.fault is None
}

/// The column without its first `n` cells.
pub open spec fn without<V>(col: Col<V>, n: nat) -> Col<V> {
    Col {
        cells: if n <= col.cells.len() {
            col.cells.skip(n as int)
        } else {
            Seq::empty()
        },
        fault: col.fault,
    }
}

/// The cells name an object: by its actor and its counter, or the root by none
/// or by the counter zero.
pub open spec fn names_object(actor: Option<u64>, ctr: Option<u64>, obj: ObjId) -> bool {
    ||| obj.0.counter > 0 && actor == Some(obj.0.actor as u64) && ctr == Some(
        obj.0.counter as u64,
    )
    ||| obj.0.counter == 0 && obj.0.actor == 0 && (ctr == Some(0u64) || (ctr is None && actor
        is None)) && (actor matches Some(a) ==> a <= u32::MAX)
}

/// The cells name a key: a map key by its text, a list element by its actor and
/// its counter, and the head of a list by the counter zero.
pub open spec fn names_key(
    actor: Option<u64>,
    ctr: Option<i64>,
    text: Option<Seq<char>>,
    key: KeyModel,
) -> bool {
    match key {
        KeyModel::Prop(s) => actor is None && ctr is None && text == Some(s),
        KeyModel::Elem(e) => {
            &&& text is None
            &&& ctr == Some(e.0.counter as i64)
            &&& actor == Some(e.0.actor as u64) || (actor is None && e.0.counter == 0 && e.0.actor
                == 0)
        },
    }
}

/// Bytes with the type in the low four bits of `meta` hold a value, a number in
/// all of them.
pub open spec fn holds_value(meta: u64, raw: Seq<u8>, value: ScalarModel) -> bool {
    &&& types::holds(meta as int % 16, raw, value)
    &&& meta % 16 == 3 ==> (leb::uleb_read(raw, 0) matches Some((_, n)) && n == raw.len())
    &&& meta % 16 == 4 || meta % 16 == 8 || meta % 16 == 9 ==> (leb::sleb_read(raw, 0) matches Some(
        (_, n),
    ) && n == raw.len())
}

/// The first row of the columns is the operation.
pub open spec fn row_says(r: Rows, op: OpModel) -> bool {
    &&& r.action.cells.len() > 0 && r.action.cells[0] == Some(op.action.spec_code())
    &&& given(r.obj_actor) && given(r.obj_ctr)
    &&& names_object(front(r.obj_actor), front(r.obj_ctr), op.obj)
    &&& given(r.key_actor) && given(r.key_ctr) && given(r.key_str)
    &&& names_key(front(r.key_actor), front(r.key_ctr), front(r.key_str), op.key)
    &&& given(r.insert) && op.insert == front_flag(r.insert)
    &&& front(r.meta) matches Some(meta) && meta / 16 <= r.value.len() && holds_value(
        meta,
        r.value.take(meta as int / 16),
        op.value,
    )
    &&& given(r.pred_count) && op.pred.len() == match front(r.pred_count) {
        Some(n) => n as nat,
        None => 0nat,
    }
    &&& op.pred.len() <= r.pred_actor.cells.len() && op.pred.len() <= r.pred_ctr.cells.len()
    &&& forall|j: int|
        0 <= j < op.pred.len() ==> r.pred_actor.cells[j] == Some(
            (#[trigger] op.pred[j]).actor as u64,
        ) && r.pred_ctr.cells[j] == Some(op.pred[j].counter as i64)
    &&& given(r.expand) && op.expand == front_flag(r.expand)
    &&& given(r.mark_name) && op.mark_name == front(r.mark_name)
    &&& op.action is Increment ==> op.value is Int || op.value is Uint
    &&& op.id.counter == r.start_op + r.next_idx && op.id.actor == 0
}

/// What is left of the columns behind a row.
pub open spec fn behind_row(r: Rows, op: OpModel) -> Rows {
    let n = op.pred.len();
    Rows {
        obj_actor: without(r.obj_actor, 1),
        obj_ctr: without(r.obj_ctr, 1),
        key_actor: without(r.key_actor, 1),
        key_ctr: without(r.key_ctr, 1),
        key_str: without(r.key_str, 1),
        insert: without(r.insert, 1),
        action: without(r.action, 1),
        meta: without(r.meta, 1),
        pred_count: without(r.pred_count, 1),
        pred_actor: without(r.pred_actor, n),
        pred_ctr: without(r.pred_ctr, n),
        expand: without(r.expand, 1),
        mark_name: without(r.mark_name, 1),
        value: match front(r.meta) {
            Some(meta) => r.value.skip(meta as int / 16),
            None => r.value,
        },
        start_op: r.start_op,
        next_idx: r.next_idx + 1,
    }
}

proof fn lemma_rest_is_without<V>(col: Col<V>)
    ensures
        col.rest() == without(col, 1),
{
    if col.cells.len() > 0 {
        assert(col.cells.drop_first() =~= col.cells.skip(1));
    } else {
        assert(col.cells =~= Seq::empty());
    }
}

/// Which cells name which object, and which name none.
pub proof fn objects_are_named_so(actor: Option<u64>, ctr: Option<u64>, obj: ObjId)
    ensures
        (actor_of(actor, "obj_actor"@) matches Ok(a) && obj_of(a, ctr) == Ok::<_, ReadFault>(obj))
            <==> names_object(actor, ctr, obj),
        actor matches Some(a) && a <= u32::MAX ==> ctr is None ==> obj_of(
            Some(actor->0 as u32),
            ctr,
        ) == Err::<ObjId, _>(missing("obj_ctr"@)),
        ctr matches Some(c) && c > 0 ==> obj_of(None, ctr) == Err::<ObjId, _>(
            missing("obj_actor"@),
        ),
        ctr matches Some(c) && c > u32::MAX ==> (actor matches Some(a) && a <= u32::MAX
            ==> obj_of(Some(actor->0 as u32), ctr) == Err::<ObjId, _>(
            ReadFault::CounterTooLarge,
        )),
{
}

/// Which cells name which key.
pub proof fn keys_are_named_so(
    actor: Option<u64>,
    ctr: Option<i64>,
    text: Option<Seq<char>>,
    key: KeyModel,
)
    ensures
        (actor_of(actor, "key_actor"@) matches Ok(a) && key_of(a, ctr, text) == Ok::<_, ReadFault>(
            key,
        )) <==> names_key(actor, ctr, text, key),
{
}

/// Which bytes hold which value.
pub proof fn values_are_held_so(meta: u64, raw: Seq<u8>, value: ScalarModel)
    ensures
        value_of(meta, raw) == Ok::<_, ReadFault>(value) <==> holds_value(meta, raw, value),
{
    types::values_are_read_so(meta, raw, value);
    let ty = ValueMeta(meta).spec_type();
    assert(ty is Uleb <==> meta % 16 == 3);
    assert(ty.is_signed() <==> meta % 16 == 4 || meta % 16 == 8 || meta % 16 == 9);
}

proof fn lemma_pred_list_says(r: Rows, n: nat, ids: Seq<OpId>)
    ensures
        read_pred_list(r, n).0 == Ok::<_, ReadFault>(ids) <==> {
            &&& ids.len() == n
            &&& n <= r.pred_actor.cells.len() && n <= r.pred_ctr.cells.len()
            &&& forall|j: int|
                0 <= j < n ==> r.pred_actor.cells[j] == Some((#[trigger] ids[j]).actor as u64)
                    && r.pred_ctr.cells[j] == Some(ids[j].counter as i64)
        },
        read_pred_list(r, n).0 is Ok ==> read_pred_list(r, n).1 == (Rows {
            pred_actor: without(r.pred_actor, n),
            pred_ctr: without(r.pred_ctr, n),
            ..r
        }),
    decreases n,
{
    if n == 0 {
        assert(r.pred_actor.cells.skip(0) =~= r.pred_actor.cells);
        assert(r.pred_ctr.cells.skip(0) =~= r.pred_ctr.cells);
        assert(ids.len() == 0 ==> ids =~= Seq::empty());
    } else {
        let r1 = Rows { pred_actor: r.pred_actor.rest(), ..r };
        let r2 = Rows { pred_ctr: r1.pred_ctr.rest(), ..r1 };
        let m = (n - 1) as nat;
        lemma_rest_is_without(r.pred_actor);
        lemma_rest_is_without(r.pred_ctr);
        let first = match or_null_actor(r.pred_actor.pulled(), "pred_actor"@) {
            Ok(actor) => match or_null(r1.pred_ctr.pulled(), "pred_ctr"@) {
                Ok(ctr) => pred_of(actor, ctr),
                Err(e) => Err(e),
            },
            Err(e) => Err(e),
        };
        match first {
            Ok(id) => {
                assert(r.pred_actor.cells[0] == Some(id.actor as u64));
                assert(r.pred_ctr.cells[0] == Some(id.counter as i64));
                let tail = read_pred_list(r2, m);
                match tail.0 {
                    Ok(more) => {
                        lemma_pred_list_says(r2, m, more);
                        assert(r.pred_actor.cells.skip(1).skip(m as int)
                            =~= r.pred_actor.cells.skip(n as int));
                        assert(r.pred_ctr.cells.skip(1).skip(m as int) =~= r.pred_ctr.cells.skip(
                            n as int,
                        ));
                        let all = seq![id] + more;
                        assert forall|j: int| 0 <= j < n implies r.pred_actor.cells[j] == Some(
                            (#[trigger] all[j]).actor as u64,
                        ) && r.pred_ctr.cells[j] == Some(all[j].counter as i64) by {
                            if j > 0 {
                                assert(all[j] == more[j - 1]);
                                assert(r2.pred_actor.cells[j - 1] == r.pred_actor.cells[j]);
                                assert(r2.pred_ctr.cells[j - 1] == r.pred_ctr.cells[j]);
                            }
                        }
                        if ids.len() == n && (forall|j: int|
                            0 <= j < n ==> r.pred_actor.cells[j] == Some(
                                (#[trigger] ids[j]).actor as u64,
                            ) && r.pred_ctr.cells[j] == Some(ids[j].counter as i64)) {
                            assert forall|j: int| 0 <= j < n implies ids[j] == all[j] by {
                                assert(r.pred_actor.cells[j] == Some(all[j].actor as u64));
                                assert(r.pred_actor.cells[j] == Some(ids[j].actor as u64));
                            }
                            assert(ids =~= all);
                        }
                    },
                    Err(_) => {
                        if ids.len() == n {
                            lemma_pred_list_says(r2, m, ids.drop_first());
                            if n <= r.pred_actor.cells.len() && n <= r.pred_ctr.cells.len() && (
                            forall|j: int|
                                0 <= j < n ==> r.pred_actor.cells[j] == Some(
                                    (#[trigger] ids[j]).actor as u64,
                                ) && r.pred_ctr.cells[j] == Some(ids[j].counter as i64)) {
                                assert forall|j: int| 0 <= j < m implies r2.pred_actor.cells[j]
                                    == Some((#[trigger] ids.drop_first()[j]).actor as u64)
                                    && r2.pred_ctr.cells[j] == Some(
                                    ids.drop_first()[j].counter as i64,
                                ) by {
                                    assert(ids.drop_first()[j] == ids[j + 1]);
                                    assert(r2.pred_actor.cells[j] == r.pred_actor.cells[j + 1]);
                                    assert(r2.pred_ctr.cells[j] == r.pred_ctr.cells[j + 1]);
                                }
                            }
                        }
                    },
                }
            },
            Err(_) => {
                if ids.len() == n && n <= r.pred_actor.cells.len() && n <= r.pred_ctr.cells.len()
                    && r.pred_actor.cells[0] == Some(ids[0].actor as u64) && r.pred_ctr.cells[0]
                    == Some(ids[0].counter as i64) {
                    assert(false);
                }
            },
        }
    }
}

/// The first row is read exactly where there is an operation that it says, and
/// as that one. Each column is then without the cells of the row.
#[verifier::rlimit(60)]
pub proof fn rows_are_read_so(r: Rows, op: OpModel)
    ensures
        read_row(r).0 == Ok::<_, ReadFault>(Some(op)) <==> row_says(r, op),
        row_says(r, op) ==> read_row(r).1 == behind_row(r, op),
{
    reveal(read_op);
    reveal(read_row);
    lemma_rest_is_without(r.action);
    lemma_rest_is_without(r.obj_actor);
    lemma_rest_is_without(r.obj_ctr);
    lemma_rest_is_without(r.key_actor);
    lemma_rest_is_without(r.key_ctr);
    lemma_rest_is_without(r.key_str);
    lemma_rest_is_without(r.insert);
    lemma_rest_is_without(r.meta);
    lemma_rest_is_without(r.pred_count);
    lemma_rest_is_without(r.expand);
    lemma_rest_is_without(r.mark_name);
    let r1 = Rows { action: r.action.rest(), ..r };
    let r2 = Rows { obj_actor: r.obj_actor.rest(), obj_ctr: r.obj_ctr.rest(), ..r1 };
    let r3 = Rows {
        key_actor: r.key_actor.rest(),
        key_ctr: r.key_ctr.rest(),
        key_str: r.key_str.rest(),
        ..r2
    };
    let r4 = Rows { insert: r.insert.rest(), ..r3 };
    objects_are_named_so(front(r.obj_actor), front(r.obj_ctr), op.obj);
    assert(read_obj(r1).0 == Ok::<_, ReadFault>(op.obj) <==> given(r.obj_actor) && given(r.obj_ctr)
        && names_object(front(r.obj_actor), front(r.obj_ctr), op.obj));
    assert(read_obj(r1).0 is Ok ==> read_obj(r1).1 == r2);
    keys_are_named_so(front(r.key_actor), front(r.key_ctr), front(r.key_str), op.key);
    assert(read_key(r2).0 == Ok::<_, ReadFault>(op.key) <==> given(r.key_actor) && given(r.key_ctr)
        && given(r.key_str) && names_key(
        front(r.key_actor),
        front(r.key_ctr),
        front(r.key_str),
        op.key,
    ));
    assert(read_key(r2).0 is Ok ==> read_key(r2).1 == r3);
    let (len, raw) = match front(r.meta) {
        Some(meta) => (meta as int / 16, r.value.take(meta as int / 16)),
        None => (0int, Seq::empty()),
    };
    let r5 = Rows { meta: r.meta.rest(), value: r.value.skip(len), ..r4 };
    match front(r.meta) {
        Some(meta) => values_are_held_so(meta, raw, op.value),
        None => {},
    }
    assert(read_value(r4).0 == Ok::<_, ReadFault>(op.value) <==> (front(r.meta) matches Some(meta)
        && meta / 16 <= r.value.len() && holds_value(meta, raw, op.value)));
    assert(read_value(r4).0 is Ok ==> read_value(r4).1 == r5);
    let p = Rows { pred_count: r.pred_count.rest(), ..r5 };
    let n = match front(r.pred_count) {
        Some(n) => n as nat,
        None => 0nat,
    };
    lemma_pred_list_says(p, n, op.pred);
    match read_preds(r5).0 {
        Ok(ids) => lemma_pred_list_says(p, n, ids),
        Err(_) => {},
    }
    let r6 = Rows {
        pred_actor: without(r.pred_actor, n),
        pred_ctr: without(r.pred_ctr, n),
        ..p
    };
    assert(given(r.pred_count) ==> read_preds(r5) == read_pred_list(p, n));
    assert(!given(r.pred_count) ==> read_preds(r5).0 is Err);
    assert(read_preds(r5).0 is Ok ==> read_preds(r5).1 == r6);
    let r7 = Rows { expand: r.expand.rest(), mark_name: r.mark_name.rest(), ..r6 };
    assert(read_mark(r6).0 == Ok::<_, ReadFault>((op.expand, op.mark_name)) <==> given(r.expand)
        && given(r.mark_name) && op.expand == front_flag(r.expand) && op.mark_name == front(
        r.mark_name,
    ));
    assert(read_mark(r6).0 is Ok ==> read_mark(r6).1 == r7);
    types::actions_have_these_numbers(
        op.action,
        match front(r.action) {
            Some(code) => code,
            None => 0,
        },
    );
}

/// All rows are read one after the other, up to the end of the actions or to a
/// row that says no operation.
pub proof fn all_rows_are_read_so(r: Rows)
    ensures
        ({
            let (ops, fault) = read_all(r);
            &&& ops.len() > 0 ==> row_says(r, ops[0]) && read_all(behind_row(r, ops[0])) == (
                ops.drop_first(),
                fault,
            )
            &&& ops.len() == 0 ==> forall|op: OpModel| !row_says(r, op)
            &&& ops.len() == 0 ==> (fault is None <==> r.action.cells.len() == 0 && r.action.fault
                is None)
        }),
{
    rows_end_with_their_actions(r);
    lemma_read_row(r);
    match read_row(r) {
        (Ok(Some(op)), r2) => {
            rows_are_read_so(r, op);
            let (more, fault) = read_all(r2);
            assert((seq![op] + more).drop_first() =~= more);
        },
        _ => {
            assert forall|op: OpModel| !row_says(r, op) by {
                rows_are_read_so(r, op);
            }
        },
    }
}

/// Each column that operations have is known by its number, which is sixteen
/// times that of the column and the number of its type. The bit for compressed
/// columns does not count.
pub proof fn columns_are_known_by_their_numbers(r: Rows, col: RawColumn, data: Seq<u8>)
    ensures
        ({
            let d = data.subrange(col.data.start as int, col.data.end as int);
            let k = (col.spec.0 / 16) * 16 + col.spec.0 % 8;
            let placed = place(r, col, data);
            &&& k == 1 ==> placed == Ok::<_, ParseError>(Rows { obj_actor: cells::uint_col(d), ..r })
            &&& k == 2 ==> placed == Ok::<_, ParseError>(Rows { obj_ctr: cells::uint_col(d), ..r })
            &&& k == 17 ==> placed == Ok::<_, ParseError>(Rows { key_actor: cells::uint_col(d), ..r })
            &&& k == 19 ==> placed == Ok::<_, ParseError>(Rows { key_ctr: cells::delta_col(d), ..r })
            &&& k == 21 ==> placed == Ok::<_, ParseError>(Rows { key_str: cells::text_col(d), ..r })
            &&& k == 52 ==> placed == Ok::<_, ParseError>(Rows { insert: cells::bool_col(d), ..r })
            &&& k == 66 ==> placed == Ok::<_, ParseError>(Rows { action: cells::uint_col(d), ..r })
            &&& k == 86 ==> placed == Ok::<_, ParseError>(Rows { meta: cells::uint_col(d), ..r })
            &&& k == 87 ==> placed == Ok::<_, ParseError>(Rows { value: d, ..r })
            &&& k == 112 ==> placed == Ok::<_, ParseError>(Rows { pred_count: cells::uint_col(d), ..r })
            &&& k == 113 ==> placed == Ok::<_, ParseError>(Rows { pred_actor: cells::uint_col(d), ..r })
            &&& k == 115 ==> placed == Ok::<_, ParseError>(Rows { pred_ctr: cells::delta_col(d), ..r })
            &&& k == 148 ==> placed == Ok::<_, ParseError>(Rows { expand: cells::bool_col(d), ..r })
            &&& k == 165 ==> placed == Ok::<_, ParseError>(Rows { mark_name: cells::text_col(d), ..r })
            &&& !(k == 1 || k == 2 || k == 17 || k == 19 || k == 21 || k == 52 || k == 66 || k == 86 || k == 87 || k == 112 || k == 113 || k == 115 || k == 148 || k == 165) ==> placed == Err::<Rows, _>(
                ParseError::InvalidOpColumn(col.spec.0),
            )
        }),
{
}

/// The columns are taken one after the other, so that of two with one number the
/// later counts, and the first that operations do not have is the error.
pub proof fn columns_are_taken_in_order(
    cols: Seq<RawColumn>,
    col: RawColumn,
    data: Seq<u8>,
    start_op: nat,
)
    ensures
        rows_of(Seq::empty(), data, start_op) == Ok::<_, ParseError>(no_rows(start_op)),
        rows_of(cols.push(col), data, start_op) == match rows_of(cols, data, start_op) {
            Ok(r) => place(r, col, data),
            Err(e) => Err(e),
        },
{
    lemma_place_front(cols, col, data, start_op, cols.len());
    assert(cols.push(col)[cols.len() as int] == col);
}

proof fn lemma_place_front(
    cols: Seq<RawColumn>,
    col: RawColumn,
    data: Seq<u8>,
    start_op: nat,
    n: nat,
)
    requires
        n <= cols.len(),
    ensures
        place_all(cols.push(col), data, start_op, n) == place_all(cols, data, start_op, n),
    decreases n,
{
    if n > 0 {
        lemma_place_front(cols, col, data, start_op, (n - 1) as nat);
    }
}

/// Every increment that is read is by an integer.
pub proof fn read_operations_are_allowed(r: Rows)
    ensures
        forall|i: int|
            0 <= i < read_all(r).0.len() ==> ((#[trigger] read_all(r).0[i]).action is Increment
                ==> read_all(r).0[i].value is Int || read_all(r).0[i].value is Uint),
    decreases r.action.cells.len(),
{
    lemma_read_row(r);
    match read_row(r) {
        (Ok(Some(op)), r2) => {
            read_operations_are_allowed(r2);
            let all = read_all(r).0;
            assert(all == seq![op] + read_all(r2).0);
            assert forall|i: int|
                0 <= i < all.len() && (#[trigger] all[i]).action is Increment implies all[i].value
                is Int || all[i].value is Uint by {
                if i > 0 {
                    assert(all[i] == read_all(r2).0[i - 1]);
                }
            }
        },
        _ => {},
    }
}

// Rows that say no operation.

/// What is wrong with the front of a column, where something is.
pub open spec fn column_fault<V>(col: Col<V>, name: Seq<char>) -> Option<ReadFault> {
    if col.cells.len() > 0 || col.fault is None {
        None
    } else {
        Some(ReadFault::Decode(DecodeColumnFault::InvalidValue { path: name, reason: col.fault->0 }))
    }
}

/// What is wrong with the front of a column of actors, where something is.
pub open spec fn actor_fault(col: Col<Option<u64>>, name: Seq<char>) -> Option<ReadFault> {
    if col.cells.len() > 0 && (col.cells[0] matches Some(a) && a >= 0x1_0000_0000) {
        Some(
            ReadFault::Decode(
                DecodeColumnFault::InvalidValue { path: name, reason: "actor index too large"@ },
            ),
        )
    } else {
        column_fault(col, name)
    }
}

/// What is wrong with the cells that name an object, where something is.
pub open spec fn object_fault(r: Rows) -> Option<ReadFault> {
    if actor_fault(r.obj_actor, "obj_actor"@) is Some {
        actor_fault(r.obj_actor, "obj_actor"@)
    } else if column_fault(r.obj_ctr, "obj_ctr"@) is Some {
        column_fault(r.obj_ctr, "obj_ctr"@)
    } else if front(r.obj_actor) is Some && front(r.obj_ctr) is None {
        Some(ReadFault::Decode(DecodeColumnFault::UnexpectedNull { path: "obj_ctr"@ }))
    } else if front(r.obj_actor) is None && (front(r.obj_ctr) matches Some(c) && c > 0) {
        Some(ReadFault::Decode(DecodeColumnFault::UnexpectedNull { path: "obj_actor"@ }))
    } else if front(r.obj_ctr) matches Some(c) && c >= 0x1_0000_0000 {
        Some(ReadFault::CounterTooLarge)
    } else {
        None
    }
}

/// What is wrong with the cells that name a key, where something is.
pub open spec fn key_fault(r: Rows) -> Option<ReadFault> {
    let actor = front(r.key_actor);
    let ctr = front(r.key_ctr);
    let text = front(r.key_str);
    if actor_fault(r.key_actor, "key_actor"@) is Some {
        actor_fault(r.key_actor, "key_actor"@)
    } else if column_fault(r.key_ctr, "key_ctr"@) is Some {
        column_fault(r.key_ctr, "key_ctr"@)
    } else if column_fault(r.key_str, "key_str"@) is Some {
        column_fault(r.key_str, "key_str"@)
    } else if text is Some && actor is None && ctr is None {
        None
    } else if text is None && actor is Some && (ctr matches Some(c) && (c < 0 || c
        >= 0x1_0000_0000)) {
        Some(ReadFault::CounterTooLarge)
    } else if text is None && ctr is Some && (actor is Some || ctr == Some(0i64)) {
        None
    } else {
        Some(
            ReadFault::Decode(
                DecodeColumnFault::InvalidValue {
                    path: "key"@,
                    reason: "ambiguous or incomplete key columns"@,
                },
            ),
        )
    }
}

/// What is wrong with the cells of the `j`-th predecessor, where something is.
pub open spec fn pred_fault(r: Rows, j: nat) -> Option<ReadFault> {
    let actors = without(r.pred_actor, j);
    let ctrs = without(r.pred_ctr, j);
    if actor_fault(actors, "pred_actor"@) is Some {
        actor_fault(actors, "pred_actor"@)
    } else if column_fault(ctrs, "pred_ctr"@) is Some {
        column_fault(ctrs, "pred_ctr"@)
    } else if front(actors) is None || front(ctrs) is None {
        Some(ReadFault::Decode(DecodeColumnFault::UnexpectedNull { path: "pred"@ }))
    } else if front(ctrs) matches Some(c) && (c < 0 || c >= 0x1_0000_0000) {
        Some(ReadFault::CounterTooLarge)
    } else {
        None
    }
}

/// The cells of an object fail for what is first wrong with them.
pub proof fn objects_fail_so(r: Rows)
    ensures
        read_obj(r).0 is Err <==> object_fault(r) is Some,
        read_obj(r).0 matches Err(e) ==> object_fault(r) == Some(e),
{
}

/// The cells of a key fail for what is first wrong with them.
pub proof fn keys_fail_so(r: Rows)
    ensures
        read_key(r).0 is Err <==> key_fault(r) is Some,
        read_key(r).0 matches Err(e) ==> key_fault(r) == Some(e),
{
}

/// A list of predecessors fails for what is wrong with the first of them that
/// cannot be read.
pub proof fn predecessors_fail_so(r: Rows, n: nat)
    ensures
        read_pred_list(r, n).0 matches Err(e) ==> exists|j: nat|
            j < n && #[trigger] pred_fault(r, j) == Some(e) && forall|i: nat|
                i < j ==> #[trigger] pred_fault(r, i) is None,
    decreases n,
{
    if n > 0 {
        let r2 = Rows { pred_actor: r.pred_actor.rest(), pred_ctr: r.pred_ctr.rest(), ..r };
        lemma_rest_is_without(r.pred_actor);
        lemma_rest_is_without(r.pred_ctr);
        assert(without(r.pred_actor, 0).cells =~= r.pred_actor.cells);
        assert(without(r.pred_ctr, 0).cells =~= r.pred_ctr.cells);
        match read_pred_list(r, n).0 {
            Err(e) => {
                if pred_fault(r, 0) is None {
                    predecessors_fail_so(r2, (n - 1) as nat);
                    let j = choose|j: nat|
                        j < n - 1 && #[trigger] pred_fault(r2, j) == Some(e) && forall|i: nat|
                            i < j ==> #[trigger] pred_fault(r2, i) is None;
                    assert forall|i: nat| #[trigger] pred_fault(r, i + 1) == pred_fault(r2, i) by {
                        lemma_without_more(r.pred_actor, i);
                        lemma_without_more(r.pred_ctr, i);
                    }
                    assert(pred_fault(r, j + 1) == Some(e));
                    assert forall|i: nat| i < j + 1 implies #[trigger] pred_fault(r, i) is None by {
                        if i > 0 {
                            let k = (i - 1) as nat;
                            assert(pred_fault(r, k + 1) == pred_fault(r2, k));
                        }
                    }
                } else {
                    assert(pred_fault(r, 0) == Some(e));
                }
            },
            Ok(_) => {},
        }
    }
}

proof fn lemma_without_more<V>(col: Col<V>, n: nat)
    ensures
        without(without(col, 1), n) == without(col, n + 1),
{
    let a = without(without(col, 1), n);
    let b = without(col, n + 1);
    assert(a.cells =~= b.cells);
}

/// A row fails for what is first wrong with it: its action, its object, its key,
/// whether it inserts, its value, its predecessors, its mark, and then an
/// increment by what is no integer and a counter that is too large.
pub proof fn rows_fail_so(r: Rows)
    ensures
        ({
            let result = read_row(r).0;
            let sound = r.action.cells.len() > 0 && (r.action.cells[0] matches Some(c) && c <= 7);
            &&& r.action.cells.len() == 0 && r.action.fault is None ==> result == Ok::<
                _,
                ReadFault,
            >(None::<OpModel>)
            &&& column_fault(r.action, "action"@) matches Some(e) ==> result == Err::<
                Option<OpModel>,
                _,
            >(e)
            &&& r.action.cells.len() > 0 && r.action.cells[0] is None ==> result == Err::<
                Option<OpModel>,
                _,
            >(ReadFault::Decode(DecodeColumnFault::UnexpectedNull { path: "action"@ }))
            &&& r.action.cells.len() > 0 && (r.action.cells[0] matches Some(c) && c > 7)
                ==> result == Err::<Option<OpModel>, _>(
                ReadFault::Decode(
                    DecodeColumnFault::InvalidValue {
                        path: "action"@,
                        reason: "unknown action"@,
                    },
                ),
            )
            &&& sound ==> match object_fault(r) {
                Some(e) => result == Err::<Option<OpModel>, _>(e),
                None => match key_fault(r) {
                    Some(e) => result == Err::<Option<OpModel>, _>(e),
                    None => column_fault(r.insert, "insert"@) matches Some(e) ==> result == Err::<
                        Option<OpModel>,
                        _,
                    >(e),
                },
            }
        }),
{
    reveal(read_op);
    reveal(read_row);
    let r1 = Rows { action: r.action.rest(), ..r };
    objects_fail_so(r1);
    let r2 = read_obj(r1).1;
    keys_fail_so(r2);
    match front(r.action) {
        Some(code) => types::actions_have_these_numbers(Action::Put, code),
        None => {},
    }
}

/// Bytes that hold no value of the type in the low four bits of `meta` fail for
/// their type: a number that cannot be read or leaves bytes over, a float that
/// has not eight bytes, a text that is not UTF-8. Bytes of another type hold a
/// value.
pub proof fn values_fail_so(meta: u64, raw: Seq<u8>)
    ensures
        ({
            let ty = meta % 16;
            let result = value_of(meta, raw);
            let signed = ty == 4 || ty == 8 || ty == 9;
            &&& ty == 3 ==> match leb::uleb_read(raw, 0) {
                None => result == Err::<ScalarModel, _>(bad_value("bad uleb"@)),
                Some((_, n)) => if n == raw.len() {
                    result is Ok
                } else {
                    result == Err::<ScalarModel, _>(bad_value("extra bytes"@))
                },
            }
            &&& signed ==> match leb::sleb_read(raw, 0) {
                None => result == Err::<ScalarModel, _>(bad_value("bad leb"@)),
                Some((_, n)) => if n == raw.len() {
                    result is Ok
                } else {
                    result == Err::<ScalarModel, _>(bad_value("extra bytes"@))
                },
            }
            &&& ty == 5 ==> if raw.len() == 8 {
                result is Ok
            } else {
                result == Err::<ScalarModel, _>(bad_value("invalid float"@))
            }
            &&& ty == 6 ==> if vstd::utf8::valid_utf8(raw) {
                result is Ok
            } else {
                result == Err::<ScalarModel, _>(bad_value("invalid utf8"@))
            }
            &&& ty != 3 && !signed && ty != 5 && ty != 6 ==> result is Ok
        }),
{
    leb::lemma_uleb_read_bounds(raw, 0);
    leb::lemma_sleb_read_bounds(raw, 0);
    leb::lemma_leb_limits();
}

/// A value that could not be read.
pub open spec fn bad_value(reason: Seq<char>) -> ReadFault {
    ReadFault::Decode(DecodeColumnFault::InvalidValue { path: "value"@, reason })
}

/// What is wrong with the value of a row, where something is.
pub open spec fn value_fault(r: Rows) -> Option<ReadFault> {
    if column_fault(r.meta, "value_meta"@) is Some {
        column_fault(r.meta, "value_meta"@)
    } else {
        match front(r.meta) {
            None => Some(
                ReadFault::Decode(DecodeColumnFault::UnexpectedNull { path: "value_meta"@ }),
            ),
            Some(meta) => if meta / 16 > r.value.len() {
                Some(bad_value("raw value bytes truncated"@))
            } else {
                match value_of(meta, r.value.take(meta as int / 16)) {
                    Ok(_) => None,
                    Err(e) => Some(e),
                }
            },
        }
    }
}

/// What is wrong with a row whose action, object and key are sound: its value,
/// its predecessors, its mark, and then an increment by what is no integer and a
/// counter that is too large.
pub proof fn rows_fail_late_so(r: Rows)
    requires
        r.action.cells.len() > 0,
        r.action.cells[0] matches Some(c) && c <= 7,
        object_fault(r) is None,
        key_fault(r) is None,
        column_fault(r.insert, "insert"@) is None,
    ensures
        ({
            let result = read_row(r).0;
            let n = match front(r.pred_count) {
                Some(n) => n as nat,
                None => 0nat,
            };
            match value_fault(r) {
                Some(e) => result == Err::<Option<OpModel>, _>(e),
                None => match column_fault(r.pred_count, "pred_count"@) {
                    Some(e) => result == Err::<Option<OpModel>, _>(e),
                    None => {
                        ||| exists|j: nat|
                            j < n && (#[trigger] pred_fault(r, j) matches Some(e) && result
                                == Err::<Option<OpModel>, _>(e)) && forall|i: nat|
                                i < j ==> #[trigger] pred_fault(r, i) is None
                        ||| n <= r.pred_actor.cells.len() && n <= r.pred_ctr.cells.len() && match (
                            column_fault(r.expand, "expand"@),
                            column_fault(r.mark_name, "mark_name"@),
                        ) {
                            (Some(e), _) => result == Err::<Option<OpModel>, _>(e),
                            (None, Some(e)) => result == Err::<Option<OpModel>, _>(e),
                            (None, None) => {
                                let value = value_of(
                                    front(r.meta)->0,
                                    r.value.take(front(r.meta)->0 as int / 16),
                                )->Ok_0;
                                if r.action.cells[0] == Some(5u64) && !(value is Int || value
                                    is Uint) {
                                    result == Err::<Option<OpModel>, _>(
                                        ReadFault::InvalidOpType(InvalidOpType::NonNumericInc),
                                    )
                                } else if r.start_op + r.next_idx >= 0x1_0000_0000 {
                                    result == Err::<Option<OpModel>, _>(ReadFault::CounterTooLarge)
                                } else {
                                    result matches Ok(Some(_))
                                }
                            },
                        }
                    },
                },
            }
        }),
{
    reveal(read_op);
    reveal(read_row);
    let r1 = Rows { action: r.action.rest(), ..r };
    objects_fail_so(r1);
    let r2 = read_obj(r1).1;
    assert(r2 == (Rows { obj_actor: r.obj_actor.rest(), obj_ctr: r.obj_ctr.rest(), ..r1 }));
    keys_fail_so(r2);
    let r3 = read_key(r2).1;
    assert(r3 == (Rows {
        key_actor: r.key_actor.rest(),
        key_ctr: r.key_ctr.rest(),
        key_str: r.key_str.rest(),
        ..r2
    }));
    let r4 = read_insert(r3).1;
    types::actions_have_these_numbers(Action::Increment, r.action.cells[0]->0);
    if value_fault(r) is None {
        let r5 = read_value(r4).1;
        if column_fault(r.pred_count, "pred_count"@) is None {
            let p = Rows { pred_count: r.pred_count.rest(), ..r5 };
            let n = match front(r.pred_count) {
                Some(n) => n as nat,
                None => 0nat,
            };
            assert(read_preds(r5) == read_pred_list(p, n));
            predecessors_fail_so(p, n);
            assert forall|j: nat| #[trigger] pred_fault(p, j) == pred_fault(r, j) by {}
            match read_pred_list(p, n).0 {
                Ok(ids) => {
                    lemma_pred_list_says(p, n, ids);
                },
                Err(e) => {
                    let j = choose|j: nat|
                        j < n && #[trigger] pred_fault(p, j) == Some(e) && forall|i: nat|
                            i < j ==> #[trigger] pred_fault(p, i) is None;
                    assert(pred_fault(r, j) == Some(e));
                    assert forall|i: nat| i < j implies #[trigger] pred_fault(r, i) is None by {
                        assert(pred_fault(p, i) is None);
                    }
                },
            }
        }
    }
}

/// The operations of a change are those of its rows. Where a column is none that
/// operations have there are no rows, and neither operations nor a fault.
pub proof fn operations_are_read_of_their_rows(
    cols: Seq<RawColumn>,
    data: Seq<u8>,
    start_op: nat,
    r: Rows,
)
    ensures
        rows_of(cols, data, start_op) matches Ok(rows) ==> ops_of(cols, data, start_op)
            == read_all(rows),
        rows_of(cols, data, start_op) is Err ==> ops_of(cols, data, start_op).0.len() == 0
            && ops_of(cols, data, start_op).1 is None,
        next_of(None).0 is None,
        match read_row(r).0 {
            Ok(Some(op)) => next_of(Some(r)) == (
                Some(Ok::<_, ReadFault>(op)),
                Some(read_row(r).1),
            ),
            Ok(None) => next_of(Some(r)).0 is None,
            Err(e) => next_of(Some(r)).0 == Some(Err::<OpModel, _>(e)),
        },
        readable(Some(r)) <==> read_all(r).1 is None,
{
}

} // verus!
