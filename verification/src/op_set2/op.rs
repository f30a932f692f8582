//! Operations.
use super::meta::ValueMeta;
use super::types::{Action, KeyModel, KeyRef, ScalarModel, ScalarValue};
use crate::types::{ElemId, ObjId, OpId};
use std::cmp::Ordering;
use vstd::std_specs::cmp::{PartialEqSpec, PartialOrdSpec};
use vstd::prelude::*;

verus! {

/// An operation. Actors are indices into some list of actors.
#[derive(Debug)]
pub struct OpBuilder {
    pub id: OpId,
    pub obj: ObjId,
    pub action: Action,
    pub key: KeyRef,
    pub value: ScalarValue,
    pub insert: bool,
    pub expand: bool,
    pub mark_name: Option<String>,
    pub pred: Vec<OpId>,
}

/// The model of an `OpBuilder`.
#[verifier::ext_equal]
pub struct OpModel {
    pub id: OpId,
    pub obj: ObjId,
    pub action: Action,
    pub key: KeyModel,
    pub value: ScalarModel,
    pub insert: bool,
    pub expand: bool,
    pub mark_name: Option<Seq<char>>,
    pub pred: Seq<OpId>,
}

impl View for OpBuilder {
    type V = OpModel;

    open spec fn view(&self) -> OpModel {
        OpModel {
            id: self.id,
            obj: self.obj,
            action: self.action,
            key: self.key@,
            value: self.value@,
            insert: self.insert,
            expand: self.expand,
            mark_name: crate::columnar::encoding::cells::opt_text(self.mark_name),
            pred: self.pred@,
        }
    }
}

/// The models of a list of operations.
pub open spec fn op_models(ops: Seq<OpBuilder>) -> Seq<OpModel> {
    Seq::new(ops.len(), |i: int| ops[i]@)
}

impl OpModel {
    /// The actor of the object; the root has none.
    pub open spec fn obj_actor(self) -> Option<u32> {
        if self.obj == ObjId::spec_root() {
            None
        } else {
            Some(self.obj.0.actor)
        }
    }

    /// The counter of the object; the root has none.
    pub open spec fn obj_ctr(self) -> Option<u64> {
        if self.obj == ObjId::spec_root() {
            None
        } else {
            Some(self.obj.0.counter as u64)
        }
    }

    /// The actor of the element; a map key and the head of a list have none.
    pub open spec fn key_actor(self) -> Option<u32> {
        match self.key {
            KeyModel::Prop(_) => None,
            KeyModel::Elem(e) => if e == ElemId::spec_head() {
                None
            } else {
                Some(e.0.actor)
            },
        }
    }

    /// The counter of the element, zero for the head of a list; a map key has
    /// none.
    pub open spec fn key_ctr(self) -> Option<i64> {
        match self.key {
            KeyModel::Prop(_) => None,
            KeyModel::Elem(e) => Some(e.0.counter as i64),
        }
    }

    /// The key in a map.
    pub open spec fn key_str(self) -> Option<Seq<char>> {
        match self.key {
            KeyModel::Prop(s) => Some(s),
            KeyModel::Elem(_) => None,
        }
    }

    /// The type and the length of the value.
    pub open spec fn value_meta(self) -> u64 {
        (self.value.raw().len() * 16 + self.value.value_type().spec_code()) as u64
    }
}

impl OpBuilder {
    pub fn obj_actor(&self) -> (r: Option<u32>)
        ensures
            r == self@.obj_actor(),
    {
        if self.obj.is_root() {
            None
        } else {
            Some(self.obj.0.actor)
        }
    }

    pub fn obj_ctr(&self) -> (r: Option<u64>)
        ensures
            r == self@.obj_ctr(),
    {
        if self.obj.is_root() {
            None
        } else {
            Some(self.obj.0.counter())
        }
    }

    pub fn key_actor(&self) -> (r: Option<u32>)
        ensures
            r == self@.key_actor(),
    {
        match &self.key {
            KeyRef::Prop(_) => None,
            KeyRef::Elem(e) => if e.is_head() {
                None
            } else {
                Some(e.0.actor)
            },
        }
    }

    pub fn key_ctr(&self) -> (r: Option<i64>)
        ensures
            r == self@.key_ctr(),
    {
        match &self.key {
            KeyRef::Prop(_) => None,
            KeyRef::Elem(e) => Some(e.0.icounter()),
        }
    }

    pub fn key_str(&self) -> (r: Option<String>)
        ensures
            crate::columnar::encoding::cells::opt_text(r) == self@.key_str(),
    {
        match &self.key {
            KeyRef::Prop(s) => Some(s.clone()),
            KeyRef::Elem(_) => None,
        }
    }

    pub fn value_meta(&self) -> (r: u64)
        requires
            self@.value.writable(),
        ensures
            r == self@.value_meta(),
            r == self@.value.raw().len() * 16 + self@.value.value_type().spec_code(),
    {
        let mut raw: Vec<u8> = Vec::new();
        self.value.write_raw(&mut raw);
        assert(raw@ =~= self@.value.raw());
        ValueMeta::new(self.value.value_type(), raw.len() as u64).0
    }
}

/// Operations compare by their ids.
impl PartialEq for OpBuilder {
    fn eq(&self, other: &Self) -> (r: bool)
        ensures
            r <==> self.id.counter == other.id.counter && self.id.actor == other.id.actor,
    {
        self.id == other.id
    }
}

impl vstd::std_specs::cmp::PartialEqSpecImpl for OpBuilder {
    open spec fn obeys_eq_spec() -> bool {
        true
    }

    open spec fn eq_spec(&self, other: &Self) -> bool {
        self.id == other.id
    }
}

impl Eq for OpBuilder {

}

/// Ids are ordered by their counters, then by their actors.
impl PartialOrd for OpBuilder {
    fn partial_cmp(&self, other: &Self) -> (r: Option<Ordering>)
        ensures
            r == Some(Ordering::Less) <==> (self.id.counter < other.id.counter || (self.id.counter
                == other.id.counter && self.id.actor < other.id.actor)),
            r == Some(Ordering::Greater) <==> (self.id.counter > other.id.counter || (
            self.id.counter == other.id.counter && self.id.actor > other.id.actor)),
            r is Some,
    {
        if self.id.counter < other.id.counter {
            Some(Ordering::Less)
        } else if self.id.counter > other.id.counter {
            Some(Ordering::Greater)
        } else if self.id.actor < other.id.actor {
            Some(Ordering::Less)
        } else if self.id.actor > other.id.actor {
            Some(Ordering::Greater)
        } else {
            Some(Ordering::Equal)
        }
    }
}

impl vstd::std_specs::cmp::PartialOrdSpecImpl for OpBuilder {
    open spec fn obeys_partial_cmp_spec() -> bool {
        true
    }

    open spec fn partial_cmp_spec(&self, other: &Self) -> Option<Ordering> {
        if self.id.counter < other.id.counter {
            Some(Ordering::Less)
        } else if self.id.counter > other.id.counter {
            Some(Ordering::Greater)
        } else if self.id.actor < other.id.actor {
            Some(Ordering::Less)
        } else if self.id.actor > other.id.actor {
            Some(Ordering::Greater)
        } else {
            Some(Ordering::Equal)
        }
    }
}

/// Operations are totally ordered, and equal in that order where they are
/// equal.
pub proof fn op_order_is_total(a: OpBuilder, b: OpBuilder, c: OpBuilder)
    ensures
        a.partial_cmp_spec(&b) == Some(Ordering::Equal) <==> a.eq_spec(&b),
        a.partial_cmp_spec(&b) == Some(Ordering::Less) <==> b.partial_cmp_spec(&a) == Some(
            Ordering::Greater,
        ),
        a.partial_cmp_spec(&b) == Some(Ordering::Less) && b.partial_cmp_spec(&c) == Some(
            Ordering::Less,
        ) ==> a.partial_cmp_spec(&c) == Some(Ordering::Less),
        a.partial_cmp_spec(&b) is Some,
{
}

/// An operation is before another one where its counter is smaller or, with the
/// same counter, its actor. Operations with the same id are equal.
pub proof fn operations_are_ordered_by_counter_then_actor(a: OpBuilder, b: OpBuilder)
    ensures
        a.partial_cmp_spec(&b) == Some(Ordering::Less) <==> (a.id.counter < b.id.counter || (
        a.id.counter == b.id.counter && a.id.actor < b.id.actor)),
        a.partial_cmp_spec(&b) == Some(Ordering::Greater) <==> (a.id.counter > b.id.counter || (
        a.id.counter == b.id.counter && a.id.actor > b.id.actor)),
        a.partial_cmp_spec(&b) == Some(Ordering::Equal) <==> a.id == b.id,
        a.eq_spec(&b) <==> a.id.counter == b.id.counter && a.id.actor == b.id.actor,
{
}

/// What the columns of an operation hold: its ids, which the root and the head
/// of a list have none or only a counter of, its key, and the type number and
/// the length of its value.
pub proof fn operations_have_these_cells(op: OpModel)
    ensures
        op.obj.0.counter == 0 && op.obj.0.actor == 0 ==> op.obj_actor() is None && op.obj_ctr()
            is None,
        !(op.obj.0.counter == 0 && op.obj.0.actor == 0) ==> op.obj_actor() == Some(op.obj.0.actor)
            && op.obj_ctr() == Some(op.obj.0.counter as u64),
        op.key matches KeyModel::Prop(s) ==> op.key_actor() is None && op.key_ctr() is None
            && op.key_str() == Some(s),
        op.key matches KeyModel::Elem(e) ==> op.key_str() is None && op.key_ctr() == Some(
            e.0.counter as i64,
        ),
        op.key matches KeyModel::Elem(e) ==> e.0.counter == 0 && e.0.actor == 0 ==> op.key_actor()
            is None,
        op.key matches KeyModel::Elem(e) ==> !(e.0.counter == 0 && e.0.actor == 0)
            ==> op.key_actor() == Some(e.0.actor),
        op.value.writable() ==> op.value_meta() % 16 == op.value.value_type().spec_code()
            && op.value_meta() / 16 == op.value.raw().len(),
{
}

/// An operation shows its parts, and a list of them each of them in its place.
pub proof fn operations_show_their_parts(op: OpBuilder, ops: Seq<OpBuilder>, i: int)
    ensures
        op@.id == op.id && op@.obj == op.obj && op@.action == op.action,
        op@.key == op.key@ && op@.value == op.value@,
        op@.insert == op.insert && op@.expand == op.expand,
        op@.pred == op.pred@,
        op.mark_name matches Some(name) ==> op@.mark_name == Some(name@),
        op.mark_name is None ==> op@.mark_name is None,
        op_models(ops).len() == ops.len(),
        0 <= i < ops.len() ==> op_models(ops)[i] == ops[i]@,
{
}

} // verus!
