//! Changes spelled out, and back.
use super::Change;
use crate::legacy::{
    self, ElementId, ExpandedChange, ExpandedModel, IdModel, Key, ObjectId, ObjectModel, Op, OpType,
    OpTypeParts,
};
use crate::op_set2::op::{OpBuilder, OpModel};
use crate::op_set2::types::{KeyModel, KeyRef};
use crate::storage::change::iter;
use crate::storage::change::ChangeModel;
use crate::types::{copy_bytes, copy_hashes, ActorId, ElemId, ObjId, OpId};
use vstd::prelude::*;

verus! {

// From a change.

/// The actors of a change: its author, and the others that it mentions.
pub open spec fn actor_list(c: ChangeModel) -> Seq<Seq<u8>> {
    seq![c.actor] + c.other_actors
}

/// An id with the name of its actor.
pub open spec fn expand_id(id: OpId, actors: Seq<Seq<u8>>) -> IdModel {
    IdModel { counter: id.counter as u64, actor: actors[id.actor as int] }
}

/// An operation with the names of its actors.
pub open spec fn expand_op(op: OpModel, actors: Seq<Seq<u8>>) -> legacy::OpModel {
    legacy::OpModel {
        action: legacy::op_type_of(op.action, op.value, op.expand, op.mark_name),
        obj: if op.obj == ObjId::spec_root() {
            ObjectModel::Root
        } else {
            ObjectModel::Id(expand_id(op.obj.0, actors))
        },
        key: match op.key {
            KeyModel::Prop(s) => legacy::KeyModel::Prop(s),
            KeyModel::Elem(e) => if e == ElemId::spec_head() {
                legacy::KeyModel::Head
            } else {
                legacy::KeyModel::Elem(expand_id(e.0, actors))
            },
        },
        pred: Seq::new(op.pred.len(), |i: int| expand_id(op.pred[i], actors)),
        insert: op.insert,
    }
}

pub open spec fn expand_ops(ops: Seq<OpModel>, actors: Seq<Seq<u8>>) -> Seq<legacy::OpModel> {
    Seq::new(ops.len(), |i: int| expand_op(ops[i], actors))
}

/// A change, spelled out.
pub open spec fn expanded(c: ChangeModel) -> ExpandedModel {
    ExpandedModel {
        operations: expand_ops(c.ops().0, actor_list(c)),
        actor_id: c.actor,
        hash: Some(c.header.hash),
        seq: c.seq,
        start_op: c.start_op,
        time: c.timestamp,
        message: c.message,
        deps: c.dependencies,
        extra_bytes: c.extra(),
    }
}

/// Every actor that the operation mentions is one of `n`.
pub open spec fn actors_known(op: OpModel, n: nat) -> bool {
    &&& op.obj != ObjId::spec_root() ==> op.obj.0.actor < n
    &&& (op.key matches KeyModel::Elem(e) ==> e != ElemId::spec_head() ==> e.0.actor < n)
    &&& forall|i: int| 0 <= i < op.pred.len() ==> (#[trigger] op.pred[i]).actor < n
}

/// All operations of the change can be read, and mention only actors that the
/// change lists.
pub open spec fn expandable(c: ChangeModel) -> bool {
    &&& c.ops().1 is None
    &&& forall|i: int|
        0 <= i < c.ops().0.len() ==> actors_known(
            #[trigger] c.ops().0[i],
            1 + c.other_actors.len(),
        )
}

/// The names behind a list of actors.
spec fn names(actors: Seq<&ActorId>) -> Seq<Seq<u8>> {
    Seq::new(actors.len(), |i: int| actors[i]@)
}

fn expand_one_id(id: &OpId, actors: &Vec<&ActorId>) -> (r: legacy::OpId)
    requires
        id.actor < actors@.len(),
    ensures
        r@ == expand_id(*id, names(actors@)),
{
    legacy::OpId::new(id.counter(), actors[id.actor()])
}

fn expand_preds(pred: &Vec<OpId>, actors: &Vec<&ActorId>) -> (r: Vec<legacy::OpId>)
    requires
        forall|i: int| 0 <= i < pred@.len() ==> (#[trigger] pred@[i]).actor < actors@.len(),
    ensures
        legacy::id_models(r@) == Seq::new(
            pred@.len(),
            |i: int| expand_id(pred@[i], names(actors@)),
        ),
{
    let mut out: Vec<legacy::OpId> = Vec::new();
    let mut i: usize = 0;
    while i < pred.len()
        invariant
            i <= pred.len(),
            forall|i: int| 0 <= i < pred@.len() ==> (#[trigger] pred@[i]).actor < actors@.len(),
            out@.len() == i,
            forall|j: int|
                0 <= j < i ==> (#[trigger] out@[j])@ == expand_id(pred@[j], names(actors@)),
        decreases pred.len() - i,
    {
        assert(pred@[i as int].actor < actors@.len());
        out.push(expand_one_id(&pred[i], actors));
        i += 1;
    }
    assert(legacy::id_models(out@) =~= Seq::new(
        pred@.len(),
        |i: int| expand_id(pred@[i], names(actors@)),
    ));
    out
}

/// An operation with the names of its actors.
fn expand_one_op(op: OpBuilder, actors: &Vec<&ActorId>) -> (r: Op)
    requires
        actors_known(op@, actors@.len()),
        iter::value_allowed(op@.action, op@.value),
    ensures
        r@ == expand_op(op@, names(actors@)),
{
    let obj = match op.obj.id() {
        Some(id) => ObjectId::Id(expand_one_id(id, actors)),
        None => ObjectId::Root,
    };
    let key = match op.key {
        KeyRef::Elem(e) => if e.is_head() {
            Key::Elem(ElementId::Head)
        } else {
            Key::Elem(ElementId::Id(expand_one_id(&e.0, actors)))
        },
        KeyRef::Prop(s) => Key::Prop(s),
    };
    proof {
        assert forall|i: int| 0 <= i < op.pred@.len() implies (#[trigger] op.pred@[i]).actor
            < actors@.len() by {
            assert(op@.pred[i].actor < actors@.len());
        }
    }
    let pred = expand_preds(&op.pred, actors);
    let action = OpType::from_parts(
        OpTypeParts {
            action: op.action,
            value: op.value,
            expand: op.expand,
            mark_name: op.mark_name,
        },
    );
    Op { action, obj, key, pred, insert: op.insert }
}

fn id_known(id: &OpId, n: usize) -> (r: bool)
    ensures
        r == (id.actor < n),
{
    id.actor() < n
}

/// Every actor that the operation mentions is one of `n`.
pub fn knows_actors(op: &OpBuilder, n: usize) -> (r: bool)
    ensures
        r == actors_known(op@, n as nat),
{
    let obj: bool = match op.obj.id() {
        Some(id) => id_known(id, n),
        None => true,
    };
    let key: bool = match &op.key {
        KeyRef::Elem(e) => e.is_head() || id_known(&e.0, n),
        KeyRef::Prop(_) => true,
    };
    if !obj || !key {
        return false;
    }
    let mut i: usize = 0;
    while i < op.pred.len()
        invariant
            i <= op.pred@.len(),
            forall|j: int| 0 <= j < i ==> (#[trigger] op@.pred[j]).actor < n,
        decreases op.pred@.len() - i,
    {
        if !id_known(&op.pred[i], n) {
            assert(!(op@.pred[i as int].actor < n));
            return false;
        }
        i += 1;
    }
    true
}

impl Change {
    /// The change, spelled out; `None` where an operation cannot be read or
    /// mentions an actor that the change does not list.
    pub fn checked_decode(&self) -> (r: Option<ExpandedChange>)
        ensures
            r is Some <==> expandable(self@),
            r matches Some(e) ==> e@ == expanded(self@),
    {
        if self.is_expandable() {
            Some(self.decode())
        } else {
            None
        }
    }

    fn is_expandable(&self) -> (r: bool)
        ensures
            r == expandable(self@),
    {
        let n: usize = self.actors().len();
        let ghost all = self@.ops().0;
        let mut it = self.stored.read_ops();
        proof {
            assert(all.skip(0) =~= all);
        }
        let ghost mut done: int = 0;
        loop
            invariant
                n == 1 + self@.other_actors.len(),
                all == self@.ops().0,
                0 <= done <= all.len(),
                it@ is None ==> all.skip(done).len() == 0 && self@.ops().1 is None,
                it@ matches Some(rows) ==> iter::read_all(rows) == (all.skip(done), self@.ops().1),
                forall|j: int| 0 <= j < done ==> actors_known(#[trigger] all[j], n as nat),
            decreases all.len() - done,
        {
            proof {
                match it@ {
                    Some(rows) => iter::lemma_read_row(rows),
                    None => {},
                }
            }
            match it.next() {
                None => {
                    return true;
                },
                Some(Err(_)) => {
                    return false;
                },
                Some(Ok(op)) => {
                    proof {
                        let rest = iter::read_all(it@->0).0;
                        assert(all.skip(done) == seq![op@] + rest);
                        assert(all.skip(done)[0] == op@);
                        assert(all[done] == op@);
                        assert(all.skip(done).drop_first() =~= all.skip(done + 1));
                        assert((seq![op@] + rest).drop_first() =~= rest);
                    }
                    if !knows_actors(&op, n) {
                        return false;
                    }
                    proof {
                        done = done + 1;
                    }
                },
            }
        }
    }

    /// The change, spelled out.
    pub fn decode(&self) -> (r: ExpandedChange)
        requires
            expandable(self@),
        ensures
            r@ == expanded(self@),
    {
        let actors = self.actors();
        let ghost list = actor_list(self@);
        let ghost all = self@.ops().0;
        let mut operations: Vec<Op> = Vec::new();
        let mut it = self.iter_ops();
        proof {
            assert(names(actors@) =~= list);
            assert(legacy::op_models(operations@) =~= expand_ops(all.take(0), list));
            assert(all.skip(0) =~= all);
        }
        let ghost mut done: int = 0;
        loop
            invariant
                iter::readable(it@),
                names(actors@) == list,
                list == actor_list(self@),
                all == self@.ops().0,
                expandable(self@),
                0 <= done <= all.len(),
                it@ is None ==> all.skip(done).len() == 0,
                it@ matches Some(rows) ==> iter::read_all(rows).0 == all.skip(done),
                legacy::op_models(operations@) == expand_ops(all.take(done), list),
                operations@.len() == done,
            ensures
                legacy::op_models(operations@) == expand_ops(all, list),
            decreases all.len() - done,
        {
            proof {
                match it@ {
                    Some(rows) => iter::lemma_read_row(rows),
                    None => {},
                }
            }
            let ghost rows = it@;
            match it.next() {
                None => {
                    proof {
                        assert(all.take(done) =~= all);
                    }
                    break;
                },
                Some(op) => {
                    let ghost model = op@;
                    let ghost before = operations@;
                    proof {
                        let rest = iter::read_all(it@->0).0;
                        assert(all.skip(done) == seq![model] + rest);
                        assert(all.skip(done)[0] == model);
                        assert(all[done] == model);
                        assert(all.skip(done).drop_first() =~= all.skip(done + 1));
                        assert((seq![model] + rest).drop_first() =~= rest);
                        assert(names(actors@).len() == list.len());
                        assert(actors_known(all[done], 1 + self@.other_actors.len()));
                    }
                    operations.push(expand_one_op(op, &actors));
                    proof {
                        done = done + 1;
                        assert(legacy::op_models(operations@) =~= legacy::op_models(before).push(
                            expand_op(model, list),
                        ));
                        assert(expand_ops(all.take(done), list) =~= expand_ops(
                            all.take(done - 1),
                            list,
                        ).push(expand_op(model, list)));
                    }
                },
            }
        }
        let message: Option<String> = match self.message() {
            Some(s) => Some(s.to_owned()),
            None => None,
        };
        ExpandedChange {
            operations,
            actor_id: self.actor_id().clone(),
            hash: Some(self.hash()),
            seq: self.seq(),
            start_op: self.start_op(),
            time: self.timestamp(),
            message,
            deps: copy_hashes(self.deps()),
            extra_bytes: copy_bytes(self.extra_bytes()),
        }
    }
}

} // verus!
