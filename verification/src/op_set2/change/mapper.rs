//! The actors of a change.
use crate::op_set2::op::{self, OpBuilder, OpModel};
use crate::op_set2::types::{ActorIdx, KeyModel};
use crate::types::{self, ActorId};
use vstd::prelude::*;

verus! {

/// The operation mentions the `a`-th actor.
pub open spec fn mentions(op: OpModel, a: nat) -> bool {
    ||| op.obj_actor() matches Some(x) && x == a
    ||| op.key_actor() matches Some(x) && x == a
    ||| exists|i: int| 0 <= i < op.pred.len() && (#[trigger] op.pred[i]).actor == a
}

/// Some operation mentions the `a`-th actor.
pub open spec fn mentioned(ops: Seq<OpModel>, a: nat) -> bool {
    exists|i: int| 0 <= i < ops.len() && mentions(#[trigger] ops[i], a)
}

/// Every actor that is mentioned is one of the first `n`.
pub open spec fn actors_below(ops: Seq<OpModel>, n: nat) -> bool {
    forall|a: nat| #[trigger] mentioned(ops, a) ==> a < n
}

/// The indices below `k` of the actors that are mentioned, without that of the
/// author, in order.
pub open spec fn others(ops: Seq<OpModel>, author: nat, k: nat) -> Seq<nat>
    decreases k,
{
    if k == 0 {
        Seq::empty()
    } else {
        let before = others(ops, author, (k - 1) as nat);
        if k - 1 != author && mentioned(ops, (k - 1) as nat) {
            before.push((k - 1) as nat)
        } else {
            before
        }
    }
}

/// The index of an actor within a change: the author is the first, the others
/// follow in order.
pub open spec fn local_index(ops: Seq<OpModel>, author: nat, a: nat) -> nat {
    if a == author {
        0
    } else {
        1 + others(ops, author, a).len()
    }
}

pub proof fn lemma_others_len(ops: Seq<OpModel>, author: nat, k: nat)
    ensures
        others(ops, author, k).len() <= k,
        author < k ==> others(ops, author, k).len() < k,
    decreases k,
{
    if k > 0 {
        lemma_others_len(ops, author, (k - 1) as nat);
    }
}

/// A change without operations has no other actors.
pub proof fn lemma_no_others(ops: Seq<OpModel>, author: nat, k: nat)
    requires
        ops.len() == 0,
    ensures
        others(ops, author, k).len() == 0,
    decreases k,
{
    if k > 0 {
        lemma_no_others(ops, author, (k - 1) as nat);
    }
}

/// The actor of a change at an actor's index within the change is that actor.
pub proof fn local_index_finds_actor(ops: Seq<OpModel>, author: nat, n: nat, a: nat)
    requires
        mentioned(ops, a) || a == author,
        a < n,
    ensures
        (seq![author] + others(ops, author, n))[local_index(ops, author, a) as int] == a,
        local_index(ops, author, a) < 1 + others(ops, author, n).len(),
    decreases n,
{
    if a != author {
        lemma_others_at(ops, author, n, a);
    }
}

proof fn lemma_others_at(ops: Seq<OpModel>, author: nat, n: nat, a: nat)
    requires
        mentioned(ops, a),
        a != author,
        a < n,
    ensures
        others(ops, author, a).len() < others(ops, author, n).len(),
        others(ops, author, n)[others(ops, author, a).len() as int] == a,
    decreases n,
{
    if a < n - 1 {
        lemma_others_at(ops, author, (n - 1) as nat, a);
    }
}

/// Every other actor of a change is mentioned by some operation.
pub proof fn others_are_mentioned(ops: Seq<OpModel>, author: nat, n: nat, i: int)
    requires
        0 <= i < others(ops, author, n).len(),
    ensures
        others(ops, author, n)[i] < n,
        others(ops, author, n)[i] != author,
        mentioned(ops, others(ops, author, n)[i]),
    decreases n,
{
    if n > 0 && i < others(ops, author, (n - 1) as nat).len() {
        others_are_mentioned(ops, author, (n - 1) as nat, i);
    }
}

/// The other actors of a change are in the order of the list of actors.
pub proof fn others_are_increasing(ops: Seq<OpModel>, author: nat, n: nat, i: int, j: int)
    requires
        0 <= i < j < others(ops, author, n).len(),
    ensures
        others(ops, author, n)[i] < others(ops, author, n)[j],
    decreases n,
{
    if n > 0 {
        let before = others(ops, author, (n - 1) as nat);
        if j < before.len() {
            others_are_increasing(ops, author, (n - 1) as nat, i, j);
        } else {
            others_are_mentioned(ops, author, (n - 1) as nat, i);
        }
    }
}

/// Assigns to the actors that operations mention their indices within a
/// change. Its vectors are reused from one change to the next.
#[derive(Debug, PartialEq)]
pub struct ActorMapper<'a> {
    seen_actors: Vec<bool>,
    mapping: Vec<Option<ActorIdx>>,
    actors: &'a [ActorId],
    other_actors: Vec<usize>,
}

/// The model of an `ActorMapper`.
pub struct MapperModel {
    /// The names of all actors.
    pub actors: Seq<Seq<u8>>,
    /// Which of them have been seen.
    pub seen: Seq<bool>,
    /// Their indices within the change.
    pub mapping: Seq<Option<ActorIdx>>,
    /// The actors of the change besides its author.
    pub others: Seq<usize>,
}

impl<'a> View for ActorMapper<'a> {
    type V = MapperModel;

    closed spec fn view(&self) -> MapperModel {
        MapperModel {
            actors: types::actor_names(self.actors@),
            seen: self.seen_actors@,
            mapping: self.mapping@,
            others: self.other_actors@,
        }
    }
}

impl MapperModel {
    /// The vectors are as long as the list of actors.
    pub open spec fn wf(self) -> bool {
        &&& self.seen.len() == self.actors.len()
        &&& self.mapping.len() == self.actors.len()
        &&& self.actors.len() <= u32::MAX
        &&& forall|i: int| 0 <= i < self.others.len() ==> (#[trigger] self.others[i])
            < self.actors.len()
    }

    /// The mapping is that of a change of `ops` by `author`.
    pub open spec fn maps(self, ops: Seq<OpModel>, author: nat) -> bool {
        &&& self.others.len() == others(ops, author, self.actors.len()).len()
        &&& forall|i: int|
            0 <= i < self.others.len() ==> #[trigger] self.others[i] == others(
                ops,
                author,
                self.actors.len(),
            )[i]
        &&& forall|a: int|
            0 <= a < self.actors.len() ==> #[trigger] self.mapping[a] == (if a == author
                || mentioned(ops, a as nat) {
                Some(ActorIdx(local_index(ops, author, a as nat) as u32))
            } else {
                None
            })
    }
}

impl<'a> ActorMapper<'a> {
    pub fn new(actors: &'a [ActorId]) -> (r: ActorMapper<'a>)
        requires
            actors@.len() <= u32::MAX,
        ensures
            r@.wf(),
            r@.actors == types::actor_names(actors@),
            forall|i: int| 0 <= i < r@.seen.len() ==> !(#[trigger] r@.seen[i]),
            forall|i: int| 0 <= i < r@.mapping.len() ==> (#[trigger] r@.mapping[i]) is None,
            r@.others.len() == 0,
    {
        let mut mapper = ActorMapper {
            seen_actors: Vec::new(),
            mapping: Vec::new(),
            actors,
            other_actors: Vec::new(),
        };
        mapper.reset();
        mapper
    }

    /// Forgets all that was seen.
    fn reset(&mut self)
        requires
            old(self)@.actors.len() <= u32::MAX,
        ensures
            final(self)@.wf(),
            final(self)@.actors == old(self)@.actors,
            forall|i: int| 0 <= i < final(self)@.seen.len() ==> !(#[trigger] final(self)@.seen[i]),
            forall|i: int|
                0 <= i < final(self)@.mapping.len() ==> (#[trigger] final(self)@.mapping[i]) is None,
            final(self)@.others.len() == 0,
    {
        let len: usize = self.actors.len();
        self.seen_actors.truncate(0);
        self.mapping.truncate(0);
        self.other_actors.truncate(0);
        self.seen_actors.resize(len, false);
        self.mapping.resize(len, None);
    }

    /// The `actor`-th actor.
    pub(crate) fn actor(&self, actor: usize) -> (r: ActorId)
        requires
            actor < self@.actors.len(),
        ensures
            r@ == self@.actors[actor as int],
    {
        self.actors[actor].clone()
    }

    /// The index of the `actor`-th actor within the change.
    pub(crate) fn mapped(&self, actor: usize) -> (r: Option<ActorIdx>)
        requires
            self@.wf(),
            actor < self@.actors.len(),
        ensures
            r == self@.mapping[actor as int],
    {
        self.mapping[actor]
    }

    /// The actors of the change besides its author.
    pub fn iter(&self) -> (r: Vec<ActorId>)
        requires
            self@.wf(),
        ensures
            types::actor_names(r@) == Seq::new(
                self@.others.len(),
                |i: int| self@.actors[self@.others[i] as int],
            ),
    {
        let mut out: Vec<ActorId> = Vec::new();
        let mut i: usize = 0;
        while i < self.other_actors.len()
            invariant
                i <= self.other_actors.len(),
                self@.wf(),
                out.len() == i,
                forall|j: int|
                    0 <= j < i ==> (#[trigger] out@[j])@ == self@.actors[self@.others[j] as int],
            decreases self.other_actors.len() - i,
        {
            assert(self@.others[i as int] < self@.actors.len());
            out.push(self.actors[self.other_actors[i]].clone());
            i += 1;
        }
        assert(types::actor_names(out@) =~= Seq::new(
            self@.others.len(),
            |i: int| self@.actors[self@.others[i] as int],
        ));
        out
    }

    /// The `actor`-th actor is seen.
    pub fn process_actor(&mut self, actor: usize)
        requires
            old(self)@.wf(),
            actor < old(self)@.actors.len(),
        ensures
            final(self)@.wf(),
            final(self)@ == (MapperModel {
                seen: old(self)@.seen.update(actor as int, true),
                ..old(self)@
            }),
    {
        self.seen_actors.set(actor, true);
    }

    /// The actors that an operation mentions are seen.
    pub fn process_op(&mut self, op: &OpBuilder)
        requires
            old(self)@.wf(),
            forall|a: nat| #[trigger] mentions(op@, a) ==> a < old(self)@.actors.len(),
        ensures
            final(self)@.wf(),
            final(self)@ == (MapperModel { seen: final(self)@.seen, ..old(self)@ }),
            forall|a: int|
                0 <= a < old(self)@.actors.len() ==> (#[trigger] final(self)@.seen[a] <==> old(
                    self,
                )@.seen[a] || mentions(op@, a as nat)),
    {
        let ghost before = self@;
        if let Some(actor) = op.obj_actor() {
            assert(mentions(op@, actor as nat));
            self.process_actor(actor as usize);
        }
        if let Some(actor) = op.key_actor() {
            assert(mentions(op@, actor as nat));
            self.process_actor(actor as usize);
        }
        let mut i: usize = 0;
        while i < op.pred.len()
            invariant
                i <= op.pred.len(),
                self@.wf(),
                self@ == (MapperModel { seen: self@.seen, ..before }),
                forall|a: nat| #[trigger] mentions(op@, a) ==> a < before.actors.len(),
                forall|a: int|
                    0 <= a < before.actors.len() ==> (#[trigger] self@.seen[a] <==> {
                        ||| before.seen[a]
                        ||| op@.obj_actor() matches Some(x) && x == a
                        ||| op@.key_actor() matches Some(x) && x == a
                        ||| exists|j: int| 0 <= j < i && (#[trigger] op.pred@[j]).actor == a
                    }),
            decreases op.pred.len() - i,
        {
            let actor: usize = op.pred[i].actor();
            assert(op@.pred[i as int].actor == actor);
            assert(mentions(op@, actor as nat));
            let ghost seen = self@.seen;
            self.process_actor(actor);
            assert forall|a: int| 0 <= a < before.actors.len() implies (
            #[trigger] self@.seen[a] <==> {
                ||| before.seen[a]
                ||| op@.obj_actor() matches Some(x) && x == a
                ||| op@.key_actor() matches Some(x) && x == a
                ||| exists|j: int| 0 <= j < i + 1 && (#[trigger] op.pred@[j]).actor == a
            }) by {
                if a == actor {
                    assert(op.pred@[i as int].actor == a);
                } else {
                    assert(self@.seen[a] == seen[a]);
                }
            }
            i += 1;
        }
        assert forall|a: int| 0 <= a < before.actors.len() implies (#[trigger] self@.seen[a]
            <==> before.seen[a] || mentions(op@, a as nat)) by {
            if exists|j: int| 0 <= j < op.pred@.len() && (#[trigger] op.pred@[j]).actor == a {
                let j = choose|j: int|
                    0 <= j < op.pred@.len() && (#[trigger] op.pred@[j]).actor == a;
                assert(op@.pred[j].actor == a);
            }
            if exists|j: int| 0 <= j < op@.pred.len() && (#[trigger] op@.pred[j]).actor == a {
                let j = choose|j: int|
                    0 <= j < op@.pred.len() && (#[trigger] op@.pred[j]).actor == a;
                assert(op.pred@[j].actor == a);
            }
        }
    }

    /// Assigns indices to the actors that were seen: the first to the default
    /// actor, where there is one, the next to the others in order.
    pub fn build_mapping(&mut self, default_actor: Option<usize>)
        requires
            old(self)@.wf(),
            default_actor matches Some(a) ==> a < old(self)@.actors.len(),
        ensures
            final(self)@.wf(),
            final(self)@.actors == old(self)@.actors,
            final(self)@ == built_mapping(old(self)@, default_actor),
    {
        let ghost before = self@;
        let mut seen_index: u32 = 0;
        if let Some(actor) = default_actor {
            self.seen_actors.set(actor, false);
            self.mapping.set(actor, Some(ActorIdx(0)));
            seen_index = 1;
        }
        let ghost start = self@;
        let mut index: usize = 0;
        assert(start.others + selected(start.seen, 0) =~= start.others);
        while index < self.seen_actors.len()
            invariant
                index <= self@.seen.len(),
                self@.wf(),
                start.wf(),
                start == without_default(before, default_actor),
                self@ == (MapperModel {
                    mapping: self@.mapping,
                    others: start.others + selected(start.seen, index as nat),
                    ..start
                }),
                seen_index == first_index(default_actor) + selected(start.seen, index as nat).len(),
                selected(start.seen, index as nat).len() <= index,
                default_actor matches Some(a) ==> a < start.seen.len() && !start.seen[a as int],
                default_actor is Some && default_actor->0 < index ==> selected(
                    start.seen,
                    index as nat,
                ).len() < index,
                forall|a: int|
                    0 <= a < start.actors.len() ==> #[trigger] self@.mapping[a] == (if a < index
                        && start.seen[a] {
                        Some(
                            ActorIdx(
                                (first_index(default_actor) + selected(
                                    start.seen,
                                    a as nat,
                                ).len()) as u32,
                            ),
                        )
                    } else {
                        start.mapping[a]
                    }),
            decreases self@.seen.len() - index,
        {
            let ghost chosen = self@.others;
            if self.seen_actors[index] {
                self.other_actors.push(index);
                assert forall|j: int| 0 <= j < self@.others.len() implies (
                #[trigger] self@.others[j]) < self@.actors.len() by {
                    if j < chosen.len() {
                        assert(self@.others[j] == chosen[j]);
                    }
                }
                self.mapping.set(index, Some(ActorIdx(seen_index)));
                assert(self@.others =~= start.others + selected(
                    start.seen,
                    (index + 1) as nat,
                ));
                seen_index += 1;
            }
            index += 1;
        }
        assert(self@.mapping =~= built_mapping(before, default_actor).mapping);
    }

    /// Assigns to the actors that `ops` mention their indices within a change
    /// by `change_actor`.
    pub(crate) fn remap_actors(&mut self, ops: &[OpBuilder], change_actor: usize)
        requires
            old(self)@.actors.len() <= u32::MAX,
            change_actor < old(self)@.actors.len(),
            actors_below(op::op_models(ops@), old(self)@.actors.len()),
        ensures
            final(self)@.wf(),
            final(self)@.actors == old(self)@.actors,
            final(self)@.maps(op::op_models(ops@), change_actor as nat),
    {
        let ghost models = op::op_models(ops@);
        self.reset();
        let ghost start = self@;
        let mut i: usize = 0;
        while i < ops.len()
            invariant
                i <= ops.len(),
                models == op::op_models(ops@),
                self@.wf(),
                self@ == (MapperModel { seen: self@.seen, ..start }),
                actors_below(models, self@.actors.len()),
                forall|a: int|
                    0 <= a < self@.actors.len() ==> (#[trigger] self@.seen[a] <==> mentioned(
                        models.take(i as int),
                        a as nat,
                    )),
            decreases ops.len() - i,
        {
            assert forall|a: nat| #[trigger] mentions(ops@[i as int]@, a) implies a
                < self@.actors.len() by {
                assert(mentions(models[i as int], a));
                assert(mentioned(models, a));
            }
            let ghost seen = self@.seen;
            self.process_op(&ops[i]);
            assert forall|a: int| 0 <= a < self@.actors.len() implies (
            #[trigger] self@.seen[a] <==> mentioned(models.take(i + 1), a as nat)) by {
                let was = models.take(i as int);
                let now = models.take(i + 1);
                if mentioned(was, a as nat) {
                    let j = choose|j: int| 0 <= j < was.len() && mentions(#[trigger] was[j], a as nat);
                    assert(mentions(now[j], a as nat));
                }
                if mentions(models[i as int], a as nat) {
                    assert(mentions(now[i as int], a as nat));
                }
                if mentioned(now, a as nat) {
                    let j = choose|j: int| 0 <= j < now.len() && mentions(#[trigger] now[j], a as nat);
                    if j < i {
                        assert(mentions(was[j], a as nat));
                    }
                }
                assert(self@.seen[a] <==> seen[a] || mentions(ops@[i as int]@, a as nat));
            }
            i += 1;
        }
        assert(models.take(i as int) =~= models);
        let ghost seen = self@;
        self.build_mapping(Some(change_actor));
        proof {
            let cleared = without_default(seen, Some(change_actor)).seen;
            assert forall|k: nat| k <= seen.actors.len() implies #[trigger] selected(cleared, k).len()
                == others(models, change_actor as nat, k).len() && (forall|j: int|
                0 <= j < selected(cleared, k).len() ==> #[trigger] selected(cleared, k)[j]
                    == others(models, change_actor as nat, k)[j]) by {
                lemma_selected_is_others(cleared, models, change_actor as nat, k);
            }
            assert(seen.others + selected(cleared, seen.actors.len()) =~= selected(
                cleared,
                seen.actors.len(),
            ));
            assert forall|a: int| 0 <= a < self@.actors.len() implies #[trigger] self@.mapping[a]
                == (if a == change_actor || mentioned(models, a as nat) {
                Some(ActorIdx(local_index(models, change_actor as nat, a as nat) as u32))
            } else {
                None
            }) by {
                assert(selected(cleared, a as nat).len() == others(
                    models,
                    change_actor as nat,
                    a as nat,
                ).len());
            }
        }
    }
}

/// The indices below `k` that are set, in order.
pub open spec fn selected(seen: Seq<bool>, k: nat) -> Seq<usize>
    decreases k,
{
    if k == 0 {
        Seq::empty()
    } else {
        let before = selected(seen, (k - 1) as nat);
        if seen[k - 1] {
            before.push((k - 1) as usize)
        } else {
            before
        }
    }
}

/// The index of the first actor that is not the default.
pub open spec fn first_index(default_actor: Option<usize>) -> nat {
    if default_actor is Some {
        1
    } else {
        0
    }
}

/// The default actor has the first index, and counts as not seen.
pub open spec fn without_default(m: MapperModel, default_actor: Option<usize>) -> MapperModel {
    match default_actor {
        Some(a) => MapperModel {
            seen: m.seen.update(a as int, false),
            mapping: m.mapping.update(a as int, Some(ActorIdx(0))),
            ..m
        },
        None => m,
    }
}

/// What `build_mapping` makes of a mapper.
pub open spec fn built_mapping(m: MapperModel, default_actor: Option<usize>) -> MapperModel {
    let start = without_default(m, default_actor);
    MapperModel {
        mapping: Seq::new(
            start.mapping.len(),
            |a: int|
                if start.seen[a] {
                    Some(
                        ActorIdx(
                            (first_index(default_actor) + selected(
                                start.seen,
                                a as nat,
                            ).len()) as u32,
                        ),
                    )
                } else {
                    start.mapping[a]
                },
        ),
        others: start.others + selected(start.seen, start.actors.len()),
        ..start
    }
}

proof fn lemma_selected_is_others(seen: Seq<bool>, ops: Seq<OpModel>, author: nat, k: nat)
    requires
        k <= seen.len() <= u32::MAX,
        forall|a: int|
            0 <= a < seen.len() ==> (#[trigger] seen[a] <==> a != author && mentioned(ops, a as nat)),
    ensures
        selected(seen, k).len() == others(ops, author, k).len(),
        forall|j: int|
            0 <= j < selected(seen, k).len() ==> #[trigger] selected(seen, k)[j] == others(
                ops,
                author,
                k,
            )[j],
    decreases k,
{
    if k > 0 {
        lemma_selected_is_others(seen, ops, author, (k - 1) as nat);
    }
}

proof fn lemma_selected(seen: Seq<bool>, k: nat)
    requires
        k <= seen.len() <= u32::MAX,
    ensures
        selected(seen, k).len() <= k,
        forall|i: int|
            0 <= i < selected(seen, k).len() ==> (#[trigger] selected(seen, k)[i]) < k
                && seen[selected(seen, k)[i] as int],
        forall|i: int, j: int|
            0 <= i < j < selected(seen, k).len() ==> (#[trigger] selected(seen, k)[i]) < (
            #[trigger] selected(seen, k)[j]),
    decreases k,
{
    if k > 0 {
        lemma_selected(seen, (k - 1) as nat);
    }
}

proof fn lemma_selected_at(seen: Seq<bool>, k: nat, a: nat)
    requires
        a < k <= seen.len() <= u32::MAX,
        seen[a as int],
    ensures
        selected(seen, a).len() < selected(seen, k).len(),
        selected(seen, k)[selected(seen, a).len() as int] == a,
    decreases k,
{
    if a < k - 1 {
        lemma_selected_at(seen, (k - 1) as nat, a);
    }
}

/// A mapping gives the first index to the default actor and the next ones, in
/// order, to the others that were seen. These are listed behind those that were
/// listed before. The default actor counts as not seen then, and nothing else
/// changes.
pub proof fn mappings_are_built_so(m: MapperModel, default_actor: Option<usize>, a: int, b: int)
    requires
        m.wf(),
        default_actor matches Some(d) ==> d < m.actors.len(),
        0 <= a < m.actors.len(),
    ensures
        ({
            let built = built_mapping(m, default_actor);
            let listed = built.others.skip(m.others.len() as int);
            let first: int = if default_actor is Some {
                1
            } else {
                0
            };
            let counts = m.seen[a] && default_actor != Some(a as usize);
            &&& built.actors == m.actors
            &&& built.others.take(m.others.len() as int) == m.others
            &&& built.mapping.len() == m.mapping.len()
            &&& default_actor matches Some(d) ==> built.mapping[d as int] == Some(ActorIdx(0))
            &&& counts <==> exists|i: int|
                0 <= i < listed.len() && #[trigger] listed[i] == a && built.mapping[a] == Some(
                    ActorIdx((first + i) as u32),
                )
            &&& !counts && default_actor != Some(a as usize) ==> built.mapping[a] == m.mapping[a]
            &&& 0 <= a < b < listed.len() ==> listed[a] < listed[b]
            &&& built.seen[a] == counts
        }),
{
    let built = built_mapping(m, default_actor);
    let start = without_default(m, default_actor);
    let listed = built.others.skip(m.others.len() as int);
    let n = m.actors.len();
    assert(listed =~= selected(start.seen, n));
    assert(built.others.take(m.others.len() as int) =~= m.others);
    lemma_selected(start.seen, n);
    if start.seen[a] {
        lemma_selected_at(start.seen, n, a as nat);
        let i = selected(start.seen, a as nat).len() as int;
        assert(listed[i] == a);
    }
}

/// An operation mentions the actor of its object unless that is the root, the
/// actor of its list element unless that is the head, and those of its
/// predecessors.
pub proof fn operations_mention_these_actors(op: OpModel, ops: Seq<OpModel>, a: nat)
    ensures
        mentions(op, a) <==> {
            ||| op.obj.0.actor == a && !(op.obj.0.counter == 0 && op.obj.0.actor == 0)
            ||| op.key matches KeyModel::Elem(e) && e.0.actor == a && !(e.0.counter == 0
                && e.0.actor == 0)
            ||| exists|i: int| 0 <= i < op.pred.len() && (#[trigger] op.pred[i]).actor == a
        },
        mentioned(ops, a) <==> exists|i: int| 0 <= i < ops.len() && mentions(#[trigger] ops[i], a),
{
}

} // verus!
