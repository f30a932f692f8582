//! Changes from their spelled out form.
use super::laws;
use super::Change;
use crate::columnar::encoding::runs::MAX_CELLS;
use crate::legacy::{
    self, ElementId, ExpandedChange, ExpandedModel, IdModel, Key, ObjectId, ObjectModel, Op,
};
use crate::op_set2::change::{
    self as builder, build_change, columns, mapper, BuildChangeMetadata, MetadataModel,
};
use crate::op_set2::op::{self, OpBuilder, OpModel};
use crate::op_set2::types::{KeyModel, KeyRef, ScalarValue};
use crate::storage::change::ChangeModel;
use crate::types::{self, ActorId, ChangeHash, ElemId, ObjId, OpId};
use std::borrow::Cow;
use vstd::prelude::*;

verus! {

// The actors, in order.

/// Byte strings in the order of a dictionary.
pub open spec fn lex_less(a: Seq<u8>, b: Seq<u8>) -> bool
    decreases a.len(),
{
    if b.len() == 0 {
        false
    } else if a.len() == 0 {
        true
    } else if a[0] != b[0] {
        a[0] < b[0]
    } else {
        lex_less(a.drop_first(), b.drop_first())
    }
}

/// A list in order, with one more name at its place, unless it is there.
pub open spec fn insert_sorted(list: Seq<Seq<u8>>, name: Seq<u8>) -> Seq<Seq<u8>>
    decreases list.len(),
{
    if list.len() == 0 {
        seq![name]
    } else if name == list[0] {
        list
    } else if lex_less(name, list[0]) {
        seq![name] + list
    } else {
        seq![list[0]] + insert_sorted(list.drop_first(), name)
    }
}

pub open spec fn insert_all(list: Seq<Seq<u8>>, names: Seq<Seq<u8>>) -> Seq<Seq<u8>>
    decreases names.len(),
{
    if names.len() == 0 {
        list
    } else {
        insert_sorted(insert_all(list, names.drop_last()), names.last())
    }
}

pub open spec fn pred_names(pred: Seq<IdModel>) -> Seq<Seq<u8>> {
    Seq::new(pred.len(), |i: int| pred[i].actor)
}

/// The names of the actors that an operation mentions.
pub open spec fn names_in(op: legacy::OpModel) -> Seq<Seq<u8>> {
    let obj = match op.obj {
        ObjectModel::Root => Seq::empty(),
        ObjectModel::Id(id) => seq![id.actor],
    };
    let key = match op.key {
        legacy::KeyModel::Elem(id) => seq![id.actor],
        _ => Seq::empty(),
    };
    obj + key + pred_names(op.pred)
}

/// The names that the first `k` operations mention, in order, with those that
/// were there.
pub open spec fn gathered(list: Seq<Seq<u8>>, ops: Seq<legacy::OpModel>, k: nat) -> Seq<Seq<u8>>
    decreases k,
{
    if k == 0 {
        list
    } else {
        insert_all(gathered(list, ops, (k - 1) as nat), names_in(ops[k - 1]))
    }
}

/// The names of all actors of a change, in order.
pub open spec fn actors_of(e: ExpandedModel) -> Seq<Seq<u8>> {
    gathered(seq![e.actor_id], e.operations, e.operations.len())
}

/// Where a name stands in a list.
pub open spec fn index_in(list: Seq<Seq<u8>>, name: Seq<u8>) -> nat
    decreases list.len(),
{
    if list.len() == 0 || list[0] == name {
        0
    } else {
        1 + index_in(list.drop_first(), name)
    }
}

/// The list is in order, and no name is in it twice.
pub open spec fn in_order(list: Seq<Seq<u8>>) -> bool {
    forall|i: int, j: int| 0 <= i < j < list.len() ==> lex_less(#[trigger] list[i], #[trigger] list[j])
}

pub proof fn lemma_lex_irreflexive(a: Seq<u8>)
    ensures
        !lex_less(a, a),
    decreases a.len(),
{
    if a.len() > 0 {
        lemma_lex_irreflexive(a.drop_first());
    }
}

/// A name is before another one where it is a proper front of it, or has the
/// smaller byte where they first differ.
pub proof fn names_differ_first_where(a: Seq<u8>, b: Seq<u8>)
    ensures
        lex_less(a, b) <==> exists|i: int|
            0 <= i <= a.len() && i < b.len() && #[trigger] a.take(i) == b.take(i) && (i == a.len()
                || a[i] < b[i]),
    decreases a.len(),
{
    if b.len() == 0 {
    } else if a.len() == 0 {
        assert(a.take(0) =~= b.take(0));
    } else if a[0] != b[0] {
        if a[0] < b[0] {
            assert(a.take(0) =~= b.take(0));
        }
        assert forall|i: int|
            0 <= i <= a.len() && i < b.len() && #[trigger] a.take(i) == b.take(i) && (i == a.len()
                || a[i] < b[i]) implies a[0] < b[0] by {
            if i > 0 {
                assert(a.take(i)[0] == b.take(i)[0]);
            }
        }
    } else {
        let x = a.drop_first();
        let y = b.drop_first();
        names_differ_first_where(x, y);
        if lex_less(x, y) {
            let i = choose|i: int|
                0 <= i <= x.len() && i < y.len() && #[trigger] x.take(i) == y.take(i) && (i
                    == x.len() || x[i] < y[i]);
            assert(a.take(i + 1) =~= seq![a[0]] + x.take(i));
            assert(b.take(i + 1) =~= seq![b[0]] + y.take(i));
        }
        if exists|i: int|
            0 <= i <= a.len() && i < b.len() && #[trigger] a.take(i) == b.take(i) && (i == a.len()
                || a[i] < b[i]) {
            let i = choose|i: int|
                0 <= i <= a.len() && i < b.len() && #[trigger] a.take(i) == b.take(i) && (i
                    == a.len() || a[i] < b[i]);
            assert(i > 0);
            assert(x.take(i - 1) =~= a.take(i).drop_first());
            assert(y.take(i - 1) =~= b.take(i).drop_first());
            assert(x.take(i - 1) == y.take(i - 1));
        }
    }
}

proof fn lemma_lex_total(a: Seq<u8>, b: Seq<u8>)
    ensures
        a == b || lex_less(a, b) || lex_less(b, a),
    decreases a.len(),
{
    if a.len() == 0 || b.len() == 0 {
        if a.len() == b.len() {
            assert(a =~= b);
        }
    } else if a[0] == b[0] {
        lemma_lex_total(a.drop_first(), b.drop_first());
        if a.drop_first() == b.drop_first() {
            assert(a =~= seq![a[0]] + a.drop_first());
            assert(b =~= seq![b[0]] + b.drop_first());
        }
    }
}

proof fn lemma_lex_transitive(a: Seq<u8>, b: Seq<u8>, c: Seq<u8>)
    requires
        lex_less(a, b),
        lex_less(b, c),
    ensures
        lex_less(a, c),
    decreases a.len(),
{
    if a.len() > 0 && a[0] == b[0] && b[0] == c[0] {
        lemma_lex_transitive(a.drop_first(), b.drop_first(), c.drop_first());
    }
}

/// A name that is inserted is in the list, beside those that were.
pub proof fn lemma_insert_contains(list: Seq<Seq<u8>>, name: Seq<u8>, x: Seq<u8>)
    ensures
        insert_sorted(list, name).contains(x) <==> list.contains(x) || x == name,
    decreases list.len(),
{
    let all = insert_sorted(list, name);
    if list.len() == 0 {
        assert(all[0] == name);
    } else if name == list[0] {
    } else if lex_less(name, list[0]) {
        assert(all[0] == name);
        assert forall|i: int| 0 <= i < list.len() implies all[i + 1] == #[trigger] list[i] by {}
        if all.contains(x) && x != name {
            let i = choose|i: int| 0 <= i < all.len() && all[i] == x;
            assert(list[i - 1] == x);
        }
        if list.contains(x) {
            let i = choose|i: int| 0 <= i < list.len() && list[i] == x;
            assert(all[i + 1] == x);
        }
    } else {
        let rest = list.drop_first();
        let tail = insert_sorted(rest, name);
        lemma_insert_contains(rest, name, x);
        lemma_contains_split(list, x);
        assert(all.drop_first() =~= tail);
        lemma_contains_split(all, x);
    }
}

proof fn lemma_contains_split(list: Seq<Seq<u8>>, x: Seq<u8>)
    requires
        list.len() > 0,
    ensures
        list.contains(x) <==> list[0] == x || list.drop_first().contains(x),
{
    if list.contains(x) && list[0] != x {
        let i = choose|i: int| 0 <= i < list.len() && list[i] == x;
        assert(list.drop_first()[i - 1] == x);
    }
    if list.drop_first().contains(x) {
        let i = choose|i: int| 0 <= i < list.drop_first().len() && list.drop_first()[i] == x;
        assert(list[i + 1] == x);
    }
}

proof fn lemma_insert_in_order(list: Seq<Seq<u8>>, name: Seq<u8>)
    requires
        in_order(list),
    ensures
        in_order(insert_sorted(list, name)),
    decreases list.len(),
{
    let all = insert_sorted(list, name);
    if list.len() == 0 || name == list[0] {
    } else if lex_less(name, list[0]) {
        assert forall|i: int, j: int| 0 <= i < j < all.len() implies lex_less(
            #[trigger] all[i],
            #[trigger] all[j],
        ) by {
            if i == 0 {
                if j > 1 {
                    assert(lex_less(list[0], list[j - 1]));
                    lemma_lex_transitive(name, list[0], list[j - 1]);
                }
            } else {
                assert(lex_less(list[i - 1], list[j - 1]));
            }
        }
    } else {
        let rest = list.drop_first();
        let tail = insert_sorted(rest, name);
        assert forall|i: int, j: int| 0 <= i < j < rest.len() implies lex_less(
            #[trigger] rest[i],
            #[trigger] rest[j],
        ) by {
            assert(lex_less(list[i + 1], list[j + 1]));
        }
        lemma_insert_in_order(rest, name);
        lemma_lex_total(name, list[0]);
        assert forall|i: int, j: int| 0 <= i < j < all.len() implies lex_less(
            #[trigger] all[i],
            #[trigger] all[j],
        ) by {
            if i == 0 {
                assert(all[j] == tail[j - 1]);
                assert(tail.contains(all[j]));
                lemma_insert_contains(rest, name, all[j]);
                if rest.contains(all[j]) {
                    let k = choose|k: int| 0 <= k < rest.len() && rest[k] == all[j];
                    assert(lex_less(list[0], list[k + 1]));
                }
            } else {
                assert(lex_less(tail[i - 1], tail[j - 1]));
            }
        }
    }
}

proof fn lemma_insert_all(list: Seq<Seq<u8>>, names: Seq<Seq<u8>>, x: Seq<u8>)
    ensures
        insert_all(list, names).contains(x) <==> list.contains(x) || names.contains(x),
        in_order(list) ==> in_order(insert_all(list, names)),
    decreases names.len(),
{
    if names.len() > 0 {
        let before = insert_all(list, names.drop_last());
        lemma_insert_all(list, names.drop_last(), x);
        lemma_insert_contains(before, names.last(), x);
        if in_order(list) {
            lemma_insert_in_order(before, names.last());
        }
        if names.contains(x) && x != names.last() {
            let i = choose|i: int| 0 <= i < names.len() && names[i] == x;
            assert(names.drop_last()[i] == x);
        }
        if names.drop_last().contains(x) {
            let i = choose|i: int|
                0 <= i < names.drop_last().len() && names.drop_last()[i] == x;
            assert(names[i] == x);
        }
        assert(names[names.len() - 1] == names.last());
    }
}

proof fn lemma_gathered(list: Seq<Seq<u8>>, ops: Seq<legacy::OpModel>, k: nat, x: Seq<u8>)
    requires
        k <= ops.len(),
    ensures
        gathered(list, ops, k).contains(x) <==> list.contains(x) || (exists|i: int|
            0 <= i < k && names_in(#[trigger] ops[i]).contains(x)),
        in_order(list) ==> in_order(gathered(list, ops, k)),
    decreases k,
{
    if k > 0 {
        lemma_gathered(list, ops, (k - 1) as nat, x);
        lemma_insert_all(gathered(list, ops, (k - 1) as nat), names_in(ops[k - 1]), x);
    }
}

/// The actors of a change are its author and those that its operations
/// mention, each once, in order.
pub proof fn actors_are_sorted(e: ExpandedModel)
    ensures
        in_order(actors_of(e)),
        forall|x: Seq<u8>| #[trigger]
            actors_of(e).contains(x) <==> x == e.actor_id || (exists|i: int|
                0 <= i < e.operations.len() && names_in(#[trigger] e.operations[i]).contains(x)),
{
    let start = seq![e.actor_id];
    assert forall|x: Seq<u8>| #[trigger]
        actors_of(e).contains(x) <==> x == e.actor_id || (exists|i: int|
            0 <= i < e.operations.len() && names_in(#[trigger] e.operations[i]).contains(x)) by {
        lemma_gathered(start, e.operations, e.operations.len(), x);
        assert(start[0] == e.actor_id);
        assert(start.contains(e.actor_id));
    }
    lemma_gathered(start, e.operations, e.operations.len(), e.actor_id);
}

pub proof fn lemma_index_in(list: Seq<Seq<u8>>, name: Seq<u8>)
    requires
        list.contains(name),
    ensures
        index_in(list, name) < list.len(),
        list[index_in(list, name) as int] == name,
    decreases list.len(),
{
    if list[0] != name {
        lemma_contains_split(list, name);
        lemma_index_in(list.drop_first(), name);
    }
}

fn lex_before(a: &[u8], b: &[u8]) -> (r: bool)
    ensures
        r == lex_less(a@, b@),
{
    let mut i: usize = 0;
    proof {
        assert(a@.skip(0) =~= a@);
        assert(b@.skip(0) =~= b@);
    }
    while i < a.len() && i < b.len()
        invariant
            i <= a@.len(),
            i <= b@.len(),
            lex_less(a@, b@) == lex_less(a@.skip(i as int), b@.skip(i as int)),
        decreases a@.len() - i,
    {
        if a[i] != b[i] {
            return a[i] < b[i];
        }
        proof {
            assert(a@.skip(i as int).drop_first() =~= a@.skip(i + 1));
            assert(b@.skip(i as int).drop_first() =~= b@.skip(i + 1));
        }
        i += 1;
    }
    i < b.len()
}

/// Inserts a name at its place in a list in order, unless it is there.
fn insert_actor(list: &mut Vec<ActorId>, name: &ActorId)
    ensures
        types::actor_names(final(list)@) == insert_sorted(types::actor_names(old(list)@), name@),
{
    let ghost names = types::actor_names(list@);
    let mut i: usize = 0;
    proof {
        assert(names.skip(0) =~= names);
        assert(names.take(0) + insert_sorted(names, name@) =~= insert_sorted(names, name@));
    }
    while i < list.len()
        invariant
            i <= list@.len(),
            names == types::actor_names(list@),
            list@ == old(list)@,
            insert_sorted(names, name@) == names.take(i as int) + insert_sorted(
                names.skip(i as int),
                name@,
            ),
        decreases list@.len() - i,
    {
        proof {
            assert(names.skip(i as int)[0] == list@[i as int]@);
        }
        if list[i] == *name {
            proof {
                assert(names.take(i as int) + names.skip(i as int) =~= names);
            }
            return;
        }
        if lex_before(name.to_bytes(), list[i].to_bytes()) {
            list.insert(i, name.clone());
            proof {
                assert(types::actor_names(list@) =~= names.take(i as int) + (seq![name@]
                    + names.skip(i as int)));
            }
            return;
        }
        proof {
            let here = names.skip(i as int);
            assert(here.drop_first() =~= names.skip(i + 1));
            assert(names.take(i as int) + (seq![here[0]] + insert_sorted(here.drop_first(), name@))
                =~= names.take(i + 1) + insert_sorted(names.skip(i + 1), name@));
        }
        i += 1;
    }
    list.push(name.clone());
    proof {
        assert(names.skip(i as int) =~= Seq::empty());
        assert(types::actor_names(list@) =~= names.take(i as int) + seq![name@]);
    }
}

/// Where a name stands in a list that holds it.
fn find_actor(list: &Vec<ActorId>, name: &ActorId) -> (r: usize)
    requires
        types::actor_names(list@).contains(name@),
    ensures
        r == index_in(types::actor_names(list@), name@),
        r < list@.len(),
{
    let ghost names = types::actor_names(list@);
    proof {
        lemma_index_in(names, name@);
        assert(names.skip(0) =~= names);
    }
    let mut i: usize = 0;
    while i < list.len()
        invariant
            i <= list@.len(),
            names == types::actor_names(list@),
            index_in(names, name@) == i + index_in(names.skip(i as int), name@),
            index_in(names, name@) < names.len(),
        decreases list@.len() - i,
    {
        proof {
            assert(names.skip(i as int)[0] == list@[i as int]@);
            assert(names.skip(i as int).drop_first() =~= names.skip(i + 1));
        }
        if list[i] == *name {
            return i;
        }
        i += 1;
    }
    i
}

proof fn lemma_insert_next(list: Seq<Seq<u8>>, names: Seq<Seq<u8>>, k: int)
    requires
        0 <= k < names.len(),
    ensures
        insert_all(list, names.take(k + 1)) == insert_sorted(
            insert_all(list, names.take(k)),
            names[k],
        ),
{
    assert(names.take(k + 1).drop_last() =~= names.take(k));
}

/// Inserts the actors that an operation mentions.
fn gather_actors(list: &mut Vec<ActorId>, op: &Op)
    ensures
        types::actor_names(final(list)@) == insert_all(
            types::actor_names(old(list)@),
            names_in(op@),
        ),
{
    let ghost start = types::actor_names(list@);
    let ghost names = names_in(op@);
    let ghost mut done: int = 0;
    proof {
        assert(insert_all(start, names.take(0)) == start);
    }
    if let ObjectId::Id(id) = &op.obj {
        insert_actor(list, &id.1);
        proof {
            lemma_insert_next(start, names, 0);
            assert(names[0] == id.1@);
            done = 1;
        }
    }
    assert(types::actor_names(list@) == insert_all(start, names.take(done)));
    if let Key::Elem(ElementId::Id(id)) = &op.key {
        insert_actor(list, &id.1);
        proof {
            lemma_insert_next(start, names, done);
            assert(names[done] == id.1@);
            done = done + 1;
        }
    }
    assert(types::actor_names(list@) == insert_all(start, names.take(done)));
    let mut i: usize = 0;
    while i < op.pred.len()
        invariant
            i <= op.pred@.len(),
            names == names_in(op@),
            names.len() == done + op.pred@.len(),
            0 <= done,
            forall|j: int|
                0 <= j < op.pred@.len() ==> names[done + j] == (#[trigger] op.pred@[j]).1@,
            types::actor_names(list@) == insert_all(start, names.take(done + i)),
        decreases op.pred@.len() - i,
    {
        proof {
            assert(names[done + i] == op.pred@[i as int].1@);
            lemma_insert_next(start, names, done + i);
        }
        insert_actor(list, &op.pred[i].1);
        i += 1;
    }
    proof {
        assert(names.take(names.len() as int) =~= names);
    }
}

/// The names of all actors of a change, in order.
fn collect_actors(e: &ExpandedChange) -> (r: Vec<ActorId>)
    ensures
        types::actor_names(r@) == actors_of(e@),
{
    let mut list: Vec<ActorId> = Vec::new();
    list.push(e.actor_id.clone());
    let ghost start = seq![e.actor_id@];
    assert(types::actor_names(list@) =~= start);
    let mut i: usize = 0;
    while i < e.operations.len()
        invariant
            i <= e.operations@.len(),
            types::actor_names(list@) == gathered(start, e@.operations, i as nat),
        decreases e.operations@.len() - i,
    {
        gather_actors(&mut list, &e.operations[i]);
        assert(e@.operations[i as int] == e.operations@[i as int]@);
        i += 1;
    }
    list
}

// The operations.

/// An id with the index of its actor.
pub open spec fn import_id(id: IdModel, actors: Seq<Seq<u8>>) -> OpId {
    OpId { counter: id.counter as u32, actor: index_in(actors, id.actor) as u32 }
}

/// The operation with a given id, with the indices of its actors.
pub open spec fn import_op(op: legacy::OpModel, id: OpId, actors: Seq<Seq<u8>>) -> OpModel {
    OpModel {
        id,
        obj: match op.obj {
            ObjectModel::Root => ObjId::spec_root(),
            ObjectModel::Id(id) => ObjId(import_id(id, actors)),
        },
        action: op.action.spec_action(),
        key: match op.key {
            legacy::KeyModel::Prop(s) => KeyModel::Prop(s),
            legacy::KeyModel::Head => KeyModel::Elem(ElemId::spec_head()),
            legacy::KeyModel::Elem(id) => KeyModel::Elem(ElemId(import_id(id, actors))),
        },
        value: op.action.spec_value(),
        insert: op.insert,
        expand: op.action.spec_expand(),
        mark_name: op.action.spec_mark_name(),
        pred: Seq::new(op.pred.len(), |i: int| import_id(op.pred[i], actors)),
    }
}

/// The index of the author of a change among its actors.
pub open spec fn author_of(e: ExpandedModel) -> nat {
    index_in(actors_of(e), e.actor_id)
}

/// The operations of a change, with the indices of their actors and ids from
/// its start on.
pub open spec fn import_ops(e: ExpandedModel) -> Seq<OpModel> {
    Seq::new(
        e.operations.len(),
        |i: int|
            import_op(
                e.operations[i],
                OpId { counter: (e.start_op + i) as u32, actor: author_of(e) as u32 },
                actors_of(e),
            ),
    )
}

/// What a change is besides its operations.
pub open spec fn import_metadata(e: ExpandedModel) -> MetadataModel {
    MetadataModel {
        actor: author_of(e),
        seq: e.seq,
        max_op: (e.start_op + e.operations.len() - 1) as u64,
        timestamp: e.time,
        message: e.message,
        deps: Seq::new(e.deps.len(), |i: int| i as u64),
        extra: e.extra_bytes,
    }
}

/// The change that a spelled out one stands for.
pub open spec fn imported(e: ExpandedModel) -> ChangeModel {
    builder::fresh_change(import_ops(e), import_metadata(e), e.deps, actors_of(e))
}

pub open spec fn id_fits(id: IdModel) -> bool {
    id.counter <= u32::MAX
}

/// The ids and the value of an operation fit in a change.
pub open spec fn op_fits(op: legacy::OpModel) -> bool {
    &&& (op.obj matches ObjectModel::Id(id) ==> id_fits(id))
    &&& (op.key matches legacy::KeyModel::Elem(id) ==> id_fits(id))
    &&& forall|i: int| 0 <= i < op.pred.len() ==> id_fits(#[trigger] op.pred[i])
    &&& op.action.spec_value().writable()
}

/// A spelled out change that can be built: its counters fit in 32 bits, and so
/// do the numbers of its actors and of the predecessors of its operations.
pub open spec fn importable(e: ExpandedModel) -> bool {
    &&& e.start_op >= 1
    &&& e.operations.len() > 0 ==> e.start_op + e.operations.len() - 1 <= u32::MAX
    &&& forall|i: int| 0 <= i < e.operations.len() ==> op_fits(#[trigger] e.operations[i])
    &&& columns::preds_from(import_ops(e), 0).len() <= MAX_CELLS
    &&& actors_of(e).len() <= u32::MAX
}

fn import_one_id(id: &legacy::OpId, actors: &Vec<ActorId>) -> (r: OpId)
    requires
        id_fits(id@),
        types::actor_names(actors@).contains(id@.actor),
        actors@.len() <= u32::MAX,
    ensures
        r == import_id(id@, types::actor_names(actors@)),
{
    OpId::new(id.0, find_actor(actors, &id.1))
}

fn import_preds(pred: &Vec<legacy::OpId>, actors: &Vec<ActorId>) -> (r: Vec<OpId>)
    requires
        forall|i: int|
            0 <= i < pred@.len() ==> id_fits((#[trigger] pred@[i])@) && types::actor_names(
                actors@,
            ).contains(pred@[i]@.actor),
        actors@.len() <= u32::MAX,
    ensures
        r@ == Seq::new(
            pred@.len(),
            |i: int| import_id(legacy::id_models(pred@)[i], types::actor_names(actors@)),
        ),
{
    let ghost names = types::actor_names(actors@);
    let ghost all = Seq::new(
        pred@.len(),
        |i: int| import_id(legacy::id_models(pred@)[i], names),
    );
    let mut out: Vec<OpId> = Vec::new();
    let mut i: usize = 0;
    while i < pred.len()
        invariant
            i <= pred@.len(),
            forall|i: int|
                0 <= i < pred@.len() ==> id_fits((#[trigger] pred@[i])@) && types::actor_names(
                    actors@,
                ).contains(pred@[i]@.actor),
            actors@.len() <= u32::MAX,
            names == types::actor_names(actors@),
            all == Seq::new(
                pred@.len(),
                |i: int| import_id(legacy::id_models(pred@)[i], names),
            ),
            out@ =~= all.take(i as int),
        decreases pred@.len() - i,
    {
        assert(id_fits(pred@[i as int]@));
        out.push(import_one_id(&pred[i], actors));
        assert(all[i as int] == import_id(pred@[i as int]@, names));
        i += 1;
    }
    out
}

/// The operation with a given id, with the indices of its actors.
fn import_one_op(op: &Op, id: OpId, actors: &Vec<ActorId>) -> (r: OpBuilder)
    requires
        op_fits(op@),
        forall|x: Seq<u8>| #[trigger]
            names_in(op@).contains(x) ==> types::actor_names(actors@).contains(x),
        actors@.len() <= u32::MAX,
    ensures
        r@ == import_op(op@, id, types::actor_names(actors@)),
{
    proof {
        lemma_names_in(op@);
    }
    let obj = match &op.obj {
        ObjectId::Root => ObjId::root(),
        ObjectId::Id(id) => ObjId(import_one_id(id, actors)),
    };
    let key = match &op.key {
        Key::Prop(s) => KeyRef::Prop(s.clone()),
        Key::Elem(ElementId::Head) => KeyRef::Elem(ElemId::head()),
        Key::Elem(ElementId::Id(id)) => KeyRef::Elem(ElemId(import_one_id(id, actors))),
    };
    proof {
        assert forall|i: int| 0 <= i < op.pred@.len() implies id_fits((#[trigger] op.pred@[i])@)
            && types::actor_names(actors@).contains(op.pred@[i]@.actor) by {
            assert(op@.pred[i] == op.pred@[i]@);
            assert(id_fits(op@.pred[i]));
            assert(names_in(op@).contains(op@.pred[i].actor));
        }
    }
    let pred = import_preds(&op.pred, actors);
    let value = match op.primitive_value() {
        Some(v) => v,
        None => ScalarValue::Null,
    };
    OpBuilder {
        id,
        obj,
        action: op.action.action(),
        key,
        value,
        insert: op.insert,
        expand: op.action.expand(),
        mark_name: op.action.mark_name(),
        pred,
    }
}

/// What an operation mentions are the actors of its ids.
pub proof fn lemma_names_in(op: legacy::OpModel)
    ensures
        op.obj matches ObjectModel::Id(id) ==> names_in(op).contains(id.actor),
        op.key matches legacy::KeyModel::Elem(id) ==> names_in(op).contains(id.actor),
        forall|i: int|
            0 <= i < op.pred.len() ==> names_in(op).contains((#[trigger] op.pred[i]).actor),
{
    let names = names_in(op);
    let obj: int = if op.obj is Id {
        1
    } else {
        0
    };
    let key: int = if op.key is Elem {
        1
    } else {
        0
    };
    if op.obj is Id {
        assert(names[0] == op.obj->Id_0.actor);
    }
    if op.key is Elem {
        assert(names[obj] == op.key->Elem_0.actor);
    }
    assert forall|i: int| 0 <= i < op.pred.len() implies names.contains(
        (#[trigger] op.pred[i]).actor,
    ) by {
        assert(names[obj + key + i] == op.pred[i].actor);
    }
}

/// Every actor that an operation of a change mentions is among its actors.
pub proof fn lemma_names_known(e: ExpandedModel, i: int)
    requires
        0 <= i < e.operations.len(),
    ensures
        forall|x: Seq<u8>| #[trigger]
            names_in(e.operations[i]).contains(x) ==> actors_of(e).contains(x),
        actors_of(e).contains(e.actor_id),
{
    actors_are_sorted(e);
    assert forall|x: Seq<u8>| #[trigger] names_in(e.operations[i]).contains(x) implies actors_of(
        e,
    ).contains(x) by {
        assert(names_in(e.operations[i]).contains(x));
    }
}

/// The author of a change is among its actors.
pub proof fn lemma_author(e: ExpandedModel)
    ensures
        author_of(e) < actors_of(e).len(),
        actors_of(e)[author_of(e) as int] == e.actor_id,
{
    actors_are_sorted(e);
    assert(actors_of(e).contains(e.actor_id));
    lemma_index_in(actors_of(e), e.actor_id);
}

/// The operations of a change mention only its actors.
pub proof fn lemma_import_buildable(e: ExpandedModel)
    requires
        importable(e),
    ensures
        e.deps.len() <= usize::MAX ==> builder::buildable(
            import_ops(e),
            import_metadata(e),
            e.deps,
            actors_of(e).len(),
        ),
{
    let ops = import_ops(e);
    let actors = actors_of(e);
    lemma_author(e);
    assert forall|a: nat| #[trigger] mapper::mentioned(ops, a) implies a < actors.len() by {
        let i = choose|i: int| 0 <= i < ops.len() && mapper::mentions(#[trigger] ops[i], a);
        lemma_mentions_imported(e, i, a);
    }
    assert forall|i: int| 0 <= i < ops.len() implies (#[trigger] ops[i]).value.writable() by {
        assert(op_fits(e.operations[i]));
    }
}

/// An actor that an imported operation mentions is one that it mentioned.
proof fn lemma_mentions_imported(e: ExpandedModel, i: int, a: nat)
    requires
        importable(e),
        0 <= i < e.operations.len(),
        mapper::mentions(import_ops(e)[i], a),
    ensures
        a < actors_of(e).len(),
{
    let op = e.operations[i];
    let model = import_ops(e)[i];
    let actors = actors_of(e);
    lemma_names_in(op);
    lemma_names_known(e, i);
    if model.obj_actor() matches Some(x) && x == a {
        let id = op.obj->Id_0;
        assert(actors.contains(id.actor));
        lemma_index_in(actors, id.actor);
    } else if model.key_actor() matches Some(x) && x == a {
        let id = op.key->Elem_0;
        assert(actors.contains(id.actor));
        lemma_index_in(actors, id.actor);
    } else {
        let j = choose|j: int| 0 <= j < model.pred.len() && (#[trigger] model.pred[j]).actor == a;
        let id = op.pred[j];
        assert(names_in(op).contains(id.actor));
        assert(actors.contains(id.actor));
        lemma_index_in(actors, id.actor);
        assert(model.pred[j] == import_id(id, actors));
    }
}

/// The operations of a change, with the indices of their actors.
fn import_all_ops(e: &ExpandedChange, actors: &Vec<ActorId>, author: usize) -> (r: Vec<OpBuilder>)
    requires
        importable(e@),
        types::actor_names(actors@) == actors_of(e@),
        author == author_of(e@),
        author < actors@.len(),
    ensures
        op::op_models(r@) == import_ops(e@),
{
    let ghost all = import_ops(e@);
    let mut out: Vec<OpBuilder> = Vec::new();
    let mut i: usize = 0;
    proof {
        assert(actors_of(e@).len() == actors@.len());
    }
    while i < e.operations.len()
        invariant
            i <= e.operations@.len(),
            importable(e@),
            types::actor_names(actors@) == actors_of(e@),
            actors@.len() <= u32::MAX,
            author == author_of(e@),
            author < actors@.len(),
            all == import_ops(e@),
            op::op_models(out@) =~= all.take(i as int),
        decreases e.operations@.len() - i,
    {
        let ghost before = out@;
        proof {
            assert(e@.operations[i as int] == e.operations@[i as int]@);
            assert(op_fits(e@.operations[i as int]));
            lemma_names_known(e@, i as int);
        }
        let id = OpId::new(e.start_op + i as u64, author);
        let op = import_one_op(&e.operations[i], id, actors);
        proof {
            assert(op@ == all[i as int]);
        }
        out.push(op);
        proof {
            assert(op::op_models(out@) =~= op::op_models(before).push(all[i as int]));
        }
        i += 1;
    }
    out
}

fn count_up(n: usize) -> (r: Vec<u64>)
    ensures
        r@ == Seq::new(n as nat, |i: int| i as u64),
{
    let mut out: Vec<u64> = Vec::new();
    let mut i: usize = 0;
    while i < n
        invariant
            i <= n,
            out@ =~= Seq::new(i as nat, |j: int| j as u64),
        decreases n - i,
    {
        out.push(i as u64);
        i += 1;
    }
    out
}

fn value_fits(value: &ScalarValue) -> (r: bool)
    ensures
        r == value@.writable(),
{
    let mut raw: Vec<u8> = Vec::new();
    value.write_raw(&mut raw);
    assert(raw@ =~= value@.raw());
    (raw.len() as u64) < 0x1000_0000_0000_0000 && value.value_type().code() < 16
}

fn counter_fits(id: &legacy::OpId) -> (r: bool)
    ensures
        r == id_fits(id@),
{
    id.0 <= 0xffff_ffff
}

/// The ids and the value of an operation fit in a change.
fn fits(op: &Op) -> (r: bool)
    ensures
        r == op_fits(op@),
{
    let obj: bool = match &op.obj {
        ObjectId::Id(id) => counter_fits(id),
        ObjectId::Root => true,
    };
    let key: bool = match &op.key {
        Key::Elem(ElementId::Id(id)) => counter_fits(id),
        _ => true,
    };
    let value: bool = match op.primitive_value() {
        Some(value) => value_fits(&value),
        None => true,
    };
    if !obj || !key || !value {
        return false;
    }
    let mut i: usize = 0;
    while i < op.pred.len()
        invariant
            i <= op.pred@.len(),
            forall|j: int| 0 <= j < i ==> id_fits(#[trigger] op@.pred[j]),
        decreases op.pred@.len() - i,
    {
        if !counter_fits(&op.pred[i]) {
            assert(!id_fits(op@.pred[i as int]));
            return false;
        }
        i += 1;
    }
    true
}

fn all_fit(ops: &Vec<Op>) -> (r: bool)
    ensures
        r == forall|i: int| 0 <= i < ops@.len() ==> op_fits(#[trigger] legacy::op_models(ops@)[i]),
{
    let mut i: usize = 0;
    while i < ops.len()
        invariant
            i <= ops@.len(),
            forall|j: int| 0 <= j < i ==> op_fits(#[trigger] legacy::op_models(ops@)[j]),
        decreases ops@.len() - i,
    {
        if !fits(&ops[i]) {
            assert(!op_fits(legacy::op_models(ops@)[i as int]));
            return false;
        }
        i += 1;
    }
    true
}

/// The predecessors of all operations can be counted in 32 bits.
fn preds_fit(e: &ExpandedChange) -> (r: bool)
    ensures
        r == (columns::preds_from(import_ops(e@), 0).len() <= MAX_CELLS),
{
    let ghost ops = import_ops(e@);
    let mut total: u64 = 0;
    let mut i: usize = 0;
    while i < e.operations.len()
        invariant
            i <= e.operations@.len(),
            ops == import_ops(e@),
            total <= MAX_CELLS,
            total + columns::preds_from(ops, i as nat).len() == columns::preds_from(ops, 0).len(),
        decreases e.operations@.len() - i,
    {
        let n: usize = e.operations[i].pred.len();
        assert(ops[i as int].pred.len() == n);
        if n as u64 > MAX_CELLS - total {
            return false;
        }
        total += n as u64;
        i += 1;
    }
    true
}

fn is_importable(e: &ExpandedChange) -> (r: bool)
    ensures
        r == importable(e@),
{
    let n: u64 = e.operations.len() as u64;
    if e.start_op < 1 || (n > 0 && (e.start_op > 0xffff_ffff || n - 1 > 0xffff_ffff - e.start_op)) {
        return false;
    }
    if !all_fit(&e.operations) || !preds_fit(e) {
        return false;
    }
    let actors: Vec<ActorId> = collect_actors(e);
    assert(actors_of(e@).len() == actors@.len());
    actors.len() <= 0xffff_ffff
}

impl Change {
    /// The change that a spelled out one stands for; `None` where there is
    /// none, since a number of it does not fit.
    pub fn checked_from_expanded(e: ExpandedChange) -> (r: Option<Change>)
        ensures
            r is Some <==> importable(e@),
            r matches Some(change) ==> {
                &&& change@ == imported(e@)
                &&& change.compression() is NotCompressed
                &&& laws::reparses(change@)
                &&& laws::readable(e@) ==> laws::counted(e@, change@)
                &&& laws::readable(e@) && e@.start_op <= u32::MAX ==> laws::reloads(change@)
                &&& laws::reimportable(e@) ==> laws::reimported(change@)
                &&& laws::restorable(e@) ==> laws::restored(e@, change@)
            },
    {
        if is_importable(&e) {
            Some(Change::from_expanded(e))
        } else {
            None
        }
    }

    /// The change that a spelled out one stands for.
    pub fn from_expanded(e: ExpandedChange) -> (r: Change)
        requires
            importable(e@),
        ensures
            r@ == imported(e@),
            r.compression() is NotCompressed,
            laws::reparses(r@),
            laws::readable(e@) ==> laws::counted(e@, r@),
            laws::readable(e@) && e@.start_op <= u32::MAX ==> laws::reloads(r@),
            laws::reimportable(e@) ==> laws::reimported(r@),
            laws::restorable(e@) ==> laws::restored(e@, r@),
    {
        let actors: Vec<ActorId> = collect_actors(&e);
        proof {
            actors_are_sorted(e@);
            assert(actors_of(e@).contains(e@.actor_id));
            lemma_import_buildable(e@);
            assert(e.deps.len() <= usize::MAX);
            assert(actors_of(e@).len() == actors@.len());
        }
        let author: usize = find_actor(&actors, &e.actor_id);
        let ops: Vec<OpBuilder> = import_all_ops(&e, &actors, author);
        let max_op: u64 = if e.operations.len() == 0 {
            e.start_op - 1
        } else {
            e.start_op + (e.operations.len() as u64 - 1)
        };
        let meta = BuildChangeMetadata {
            actor: author,
            builder: 0,
            seq: e.seq,
            max_op,
            timestamp: e.time,
            message: match &e.message {
                Some(s) => Some(s.clone()),
                None => None,
            },
            deps: count_up(e.deps.len()),
            extra: Cow::Borrowed(e.extra_bytes.as_slice()),
            start_op: e.start_op,
        };
        proof {
            assert(meta@.deps =~= import_metadata(e@).deps);
            assert(meta@ == import_metadata(e@));
        }
        let hashes: &[ChangeHash] = e.deps.as_slice();
        let stored = build_change(ops.as_slice(), &meta, &hashes, actors.as_slice());
        proof {
            assert(laws::well_imported(e@));
            laws::imported_change_reparses(e@);
            if laws::reimportable(e@) {
                laws::imported_change_is_reimported(e@);
            }
            if laws::readable(e@) {
                laws::imported_ops_are_counted(e@);
                if e@.start_op <= u32::MAX {
                    laws::imported_change_reloads(e@);
                }
            }
            if laws::restorable(e@) {
                laws::imported_change_is_restored(e@);
            }
        }
        Change::new(stored)
    }
}

} // verus!
