//! Changes spelled out: operations that name their actors.
use crate::columnar::encoding::cells;
use crate::op_set2::types::{Action, ScalarModel, ScalarValue};
use crate::types::{self, ActorId, ChangeHash};
use vstd::prelude::*;

verus! {

/// The id of an operation: a counter and the name of an actor.
#[derive(Debug)]
pub struct OpId(pub u64, pub ActorId);

/// The model of an `OpId`.
pub struct IdModel {
    pub counter: u64,
    pub actor: Seq<u8>,
}

impl View for OpId {
    type V = IdModel;

    open spec fn view(&self) -> IdModel {
        IdModel { counter: self.0, actor: self.1@ }
    }
}

impl OpId {
    pub fn new(counter: u64, actor: &ActorId) -> (r: OpId)
        ensures
            r@ == (IdModel { counter, actor: actor@ }),
    {
        OpId(counter, actor.clone())
    }
}

/// The ids behind a list of ids.
pub open spec fn id_models(ids: Seq<OpId>) -> Seq<IdModel> {
    Seq::new(ids.len(), |i: int| ids[i]@)
}

/// The id of an object.
#[derive(Debug)]
pub enum ObjectId {
    Root,
    Id(OpId),
}

/// The model of an `ObjectId`.
pub enum ObjectModel {
    Root,
    Id(IdModel),
}

impl View for ObjectId {
    type V = ObjectModel;

    open spec fn view(&self) -> ObjectModel {
        match self {
            ObjectId::Root => ObjectModel::Root,
            ObjectId::Id(id) => ObjectModel::Id(id@),
        }
    }
}

/// The id of an element of a list.
#[derive(Debug)]
pub enum ElementId {
    Head,
    Id(OpId),
}

/// Where in an object an operation applies.
#[derive(Debug)]
pub enum Key {
    Prop(String),
    Elem(ElementId),
}

/// The model of a `Key`.
pub enum KeyModel {
    Prop(Seq<char>),
    Head,
    Elem(IdModel),
}

impl View for Key {
    type V = KeyModel;

    open spec fn view(&self) -> KeyModel {
        match self {
            Key::Prop(s) => KeyModel::Prop(s@),
            Key::Elem(ElementId::Head) => KeyModel::Head,
            Key::Elem(ElementId::Id(id)) => KeyModel::Elem(id@),
        }
    }
}

/// What an object is.
#[derive(Clone, Copy, Debug, PartialEq, Eq, Structural)]
pub enum ObjType {
    Mapping,
    List,
    Text,
    Table,
}

/// The start of a mark.
#[derive(Debug)]
pub struct MarkData {
    pub name: String,
    pub value: ScalarValue,
    pub expand: bool,
}

/// What an operation does, with what it takes for that.
#[derive(Debug)]
pub enum OpType {
    Make(ObjType),
    Delete,
    Increment(i64),
    Put(ScalarValue),
    MarkBegin(MarkData),
    MarkEnd(bool),
}

/// The model of an `OpType`.
pub enum OpTypeModel {
    Make(ObjType),
    Delete,
    Increment(i64),
    Put(ScalarModel),
    MarkBegin { name: Seq<char>, value: ScalarModel, expand: bool },
    MarkEnd(bool),
}

impl View for OpType {
    type V = OpTypeModel;

    open spec fn view(&self) -> OpTypeModel {
        match self {
            OpType::Make(ty) => OpTypeModel::Make(*ty),
            OpType::Delete => OpTypeModel::Delete,
            OpType::Increment(i) => OpTypeModel::Increment(*i),
            OpType::Put(v) => OpTypeModel::Put(v@),
            OpType::MarkBegin(m) => OpTypeModel::MarkBegin {
                name: m.name@,
                value: m.value@,
                expand: m.expand,
            },
            OpType::MarkEnd(expand) => OpTypeModel::MarkEnd(*expand),
        }
    }
}

/// The parts of an operation that say what it does.
#[derive(Debug)]
pub struct OpTypeParts {
    pub action: Action,
    pub value: ScalarValue,
    pub expand: bool,
    pub mark_name: Option<String>,
}

/// The operation that some parts make. An increment is by an integer.
pub open spec fn op_type_of(
    action: Action,
    value: ScalarModel,
    expand: bool,
    mark_name: Option<Seq<char>>,
) -> OpTypeModel {
    match action {
        Action::MakeMap => OpTypeModel::Make(ObjType::Mapping),
        Action::Put => OpTypeModel::Put(value),
        Action::MakeList => OpTypeModel::Make(ObjType::List),
        Action::Delete => OpTypeModel::Delete,
        Action::MakeText => OpTypeModel::Make(ObjType::Text),
        Action::Increment => match value {
            ScalarModel::Uint(v) => OpTypeModel::Increment(v as i64),
            ScalarModel::Int(v) => OpTypeModel::Increment(v),
            _ => OpTypeModel::Increment(0),
        },
        Action::MakeTable => OpTypeModel::Make(ObjType::Table),
        Action::Mark => match mark_name {
            Some(name) => OpTypeModel::MarkBegin { name, value, expand },
            None => OpTypeModel::MarkEnd(expand),
        },
    }
}

impl OpTypeModel {
    /// The action of the operation.
    pub open spec fn spec_action(self) -> Action {
        match self {
            OpTypeModel::Make(ObjType::Mapping) => Action::MakeMap,
            OpTypeModel::Make(ObjType::List) => Action::MakeList,
            OpTypeModel::Make(ObjType::Text) => Action::MakeText,
            OpTypeModel::Make(ObjType::Table) => Action::MakeTable,
            OpTypeModel::Delete => Action::Delete,
            OpTypeModel::Increment(_) => Action::Increment,
            OpTypeModel::Put(_) => Action::Put,
            OpTypeModel::MarkBegin { .. } => Action::Mark,
            OpTypeModel::MarkEnd(_) => Action::Mark,
        }
    }

    /// The value of the operation, null where it has none.
    pub open spec fn spec_value(self) -> ScalarModel {
        match self {
            OpTypeModel::Increment(i) => ScalarModel::Int(i),
            OpTypeModel::Put(v) => v,
            OpTypeModel::MarkBegin { value, .. } => value,
            _ => ScalarModel::Null,
        }
    }

    /// Whether a mark expands.
    pub open spec fn spec_expand(self) -> bool {
        match self {
            OpTypeModel::MarkBegin { expand, .. } => expand,
            OpTypeModel::MarkEnd(expand) => expand,
            _ => false,
        }
    }

    /// The name of a mark that starts.
    pub open spec fn spec_mark_name(self) -> Option<Seq<char>> {
        match self {
            OpTypeModel::MarkBegin { name, .. } => Some(name),
            _ => None,
        }
    }
}

/// An operation is what its parts make.
pub proof fn op_type_of_parts(t: OpTypeModel)
    ensures
        op_type_of(t.spec_action(), t.spec_value(), t.spec_expand(), t.spec_mark_name()) == t,
{
}

impl OpType {
    /// The operation that some parts make.
    pub fn from_parts(parts: OpTypeParts) -> (r: OpType)
        requires
            parts.action is Increment ==> parts.value@ is Int || parts.value@ is Uint,
        ensures
            r@ == op_type_of(
                parts.action,
                parts.value@,
                parts.expand,
                cells::opt_text(parts.mark_name),
            ),
    {
        match parts.action {
            Action::MakeMap => OpType::Make(ObjType::Mapping),
            Action::Put => OpType::Put(parts.value),
            Action::MakeList => OpType::Make(ObjType::List),
            Action::Delete => OpType::Delete,
            Action::MakeText => OpType::Make(ObjType::Text),
            Action::Increment => match parts.value {
                ScalarValue::Uint(v) => OpType::Increment(v as i64),
                ScalarValue::Int(v) => OpType::Increment(v),
                _ => OpType::Increment(0),
            },
            Action::MakeTable => OpType::Make(ObjType::Table),
            Action::Mark => match parts.mark_name {
                Some(name) => OpType::MarkBegin(
                    MarkData { name, value: parts.value, expand: parts.expand },
                ),
                None => OpType::MarkEnd(parts.expand),
            },
        }
    }

    /// The action of the operation.
    pub fn action(&self) -> (r: Action)
        ensures
            r == self@.spec_action(),
    {
        match self {
            OpType::Make(ObjType::Mapping) => Action::MakeMap,
            OpType::Make(ObjType::List) => Action::MakeList,
            OpType::Make(ObjType::Text) => Action::MakeText,
            OpType::Make(ObjType::Table) => Action::MakeTable,
            OpType::Delete => Action::Delete,
            OpType::Increment(_) => Action::Increment,
            OpType::Put(_) => Action::Put,
            OpType::MarkBegin(_) => Action::Mark,
            OpType::MarkEnd(_) => Action::Mark,
        }
    }

    /// The number of the action of the operation.
    pub fn action_index(&self) -> (r: u64)
        ensures
            r == self@.spec_action().spec_code(),
    {
        self.action().code()
    }

    /// Whether a mark expands.
    pub fn expand(&self) -> (r: bool)
        ensures
            r == self@.spec_expand(),
    {
        match self {
            OpType::MarkBegin(m) => m.expand,
            OpType::MarkEnd(expand) => *expand,
            _ => false,
        }
    }

    /// The name of a mark that starts.
    pub fn mark_name(&self) -> (r: Option<String>)
        ensures
            cells::opt_text(r) == self@.spec_mark_name(),
    {
        match self {
            OpType::MarkBegin(m) => Some(m.name.clone()),
            _ => None,
        }
    }
}

/// An operation.
#[derive(Debug)]
pub struct Op {
    pub action: OpType,
    pub obj: ObjectId,
    pub key: Key,
    pub pred: Vec<OpId>,
    pub insert: bool,
}

/// The model of an `Op`.
#[verifier::ext_equal]
pub struct OpModel {
    pub action: OpTypeModel,
    pub obj: ObjectModel,
    pub key: KeyModel,
    pub pred: Seq<IdModel>,
    pub insert: bool,
}

impl View for Op {
    type V = OpModel;

    open spec fn view(&self) -> OpModel {
        OpModel {
            action: self.action@,
            obj: self.obj@,
            key: self.key@,
            pred: id_models(self.pred@),
            insert: self.insert,
        }
    }
}

impl Op {
    /// The value of the operation, where it has one.
    pub fn primitive_value(&self) -> (r: Option<ScalarValue>)
        ensures
            match r {
                Some(v) => v@ == self@.action.spec_value(),
                None => self@.action.spec_value() is Null,
            },
            r is Some <==> self@.action is Increment || self@.action is Put || self@.action
                is MarkBegin,
    {
        match &self.action {
            OpType::Increment(i) => Some(ScalarValue::Int(*i)),
            OpType::Put(v) => Some(v.clone()),
            OpType::MarkBegin(m) => Some(m.value.clone()),
            _ => None,
        }
    }
}

/// The models of a list of operations.
pub open spec fn op_models(ops: Seq<Op>) -> Seq<OpModel> {
    Seq::new(ops.len(), |i: int| ops[i]@)
}

/// A change, spelled out.
#[derive(Debug)]
pub struct ExpandedChange {
    pub operations: Vec<Op>,
    pub actor_id: ActorId,
    pub hash: Option<ChangeHash>,
    pub seq: u64,
    /// The counter of the first operation, not zero.
    pub start_op: u64,
    pub time: i64,
    pub message: Option<String>,
    pub deps: Vec<ChangeHash>,
    pub extra_bytes: Vec<u8>,
}

/// The model of an `ExpandedChange`.
#[verifier::ext_equal]
pub struct ExpandedModel {
    pub operations: Seq<OpModel>,
    pub actor_id: Seq<u8>,
    pub hash: Option<Seq<u8>>,
    pub seq: u64,
    pub start_op: u64,
    pub time: i64,
    pub message: Option<Seq<char>>,
    pub deps: Seq<Seq<u8>>,
    pub extra_bytes: Seq<u8>,
}

impl View for ExpandedChange {
    type V = ExpandedModel;

    open spec fn view(&self) -> ExpandedModel {
        ExpandedModel {
            operations: op_models(self.operations@),
            actor_id: self.actor_id@,
            hash: match self.hash {
                Some(h) => Some(h@),
                None => None,
            },
            seq: self.seq,
            start_op: self.start_op,
            time: self.time,
            message: cells::opt_text(self.message),
            deps: types::hash_names(self.deps@),
            extra_bytes: self.extra_bytes@,
        }
    }
}

/// What an operation does is told from its parts: only a put keeps its value as
/// it is, an increment keeps an integer modulo 2^64, and a mark starts where it
/// has a name.
pub proof fn operations_are_made_of_their_parts(
    action: Action,
    value: ScalarModel,
    expand: bool,
    mark_name: Option<Seq<char>>,
)
    ensures
        ({
            let t = op_type_of(action, value, expand, mark_name);
            &&& t.spec_action() == action
            &&& action is Put ==> t == OpTypeModel::Put(value)
            &&& action is Delete ==> t == OpTypeModel::Delete
            &&& action is MakeMap ==> t == OpTypeModel::Make(ObjType::Mapping)
            &&& action is MakeList ==> t == OpTypeModel::Make(ObjType::List)
            &&& action is MakeText ==> t == OpTypeModel::Make(ObjType::Text)
            &&& action is MakeTable ==> t == OpTypeModel::Make(ObjType::Table)
            &&& action is Increment ==> match value {
                ScalarModel::Int(v) => t == OpTypeModel::Increment(v),
                ScalarModel::Uint(v) => t matches OpTypeModel::Increment(i) && i == if v
                    <= i64::MAX {
                    v as int
                } else {
                    v - 0x1_0000_0000_0000_0000
                },
                _ => t == OpTypeModel::Increment(0),
            }
            &&& action is Mark ==> match mark_name {
                Some(name) => t == OpTypeModel::MarkBegin { name, value, expand },
                None => t == OpTypeModel::MarkEnd(expand),
            }
        }),
{
    match value {
        ScalarModel::Uint(v) => {
            assert(v <= 0x7fff_ffff_ffff_ffffu64 ==> (v as i64) as int == v as int) by (bit_vector);
            assert(v > 0x7fff_ffff_ffff_ffffu64 ==> (v as i64) as int == v
                - 0x1_0000_0000_0000_0000) by (bit_vector);
        },
        _ => {},
    }
}

/// The parts of an operation: the value is what is put, what is added or what a
/// mark holds, and else null; only marks expand, and only one that starts has a
/// name.
pub proof fn operations_have_these_parts(t: OpTypeModel)
    ensures
        match t {
            OpTypeModel::Make(_) | OpTypeModel::Delete => t.spec_value() is Null
                && !t.spec_expand() && t.spec_mark_name() is None,
            OpTypeModel::Increment(i) => t.spec_value() == ScalarModel::Int(i) && !t.spec_expand()
                && t.spec_mark_name() is None,
            OpTypeModel::Put(v) => t.spec_value() == v && !t.spec_expand() && t.spec_mark_name()
                is None,
            OpTypeModel::MarkBegin { name, value, expand } => t.spec_value() == value
                && t.spec_expand() == expand && t.spec_mark_name() == Some(name),
            OpTypeModel::MarkEnd(expand) => t.spec_value() is Null && t.spec_expand() == expand
                && t.spec_mark_name() is None,
        },
{
}

/// What is spelled out shows its parts: an id its counter and the name of its
/// actor, an object, a key and an operation what they are made of, and a list each
/// of its members in its place.
pub proof fn spelled_out_parts_are_shown(
    id: OpId,
    obj: ObjectId,
    key: Key,
    t: OpType,
    op: Op,
    ids: Seq<OpId>,
    ops: Seq<Op>,
    i: int,
)
    ensures
        id@.counter == id.0 && id@.actor == id.1.0@,
        match obj {
            ObjectId::Root => obj@ is Root,
            ObjectId::Id(id) => obj@ matches ObjectModel::Id(m) && m.counter == id.0 && m.actor
                == id.1.0@,
        },
        match key {
            Key::Prop(s) => key@ == KeyModel::Prop(s@),
            Key::Elem(ElementId::Head) => key@ is Head,
            Key::Elem(ElementId::Id(id)) => key@ matches KeyModel::Elem(m) && m.counter == id.0
                && m.actor == id.1.0@,
        },
        match t {
            OpType::Make(ty) => t@ == OpTypeModel::Make(ty),
            OpType::Delete => t@ is Delete,
            OpType::Increment(n) => t@ == OpTypeModel::Increment(n),
            OpType::Put(v) => t@ == OpTypeModel::Put(v@),
            OpType::MarkBegin(m) => t@ == (OpTypeModel::MarkBegin {
                name: m.name@,
                value: m.value@,
                expand: m.expand,
            }),
            OpType::MarkEnd(expand) => t@ == OpTypeModel::MarkEnd(expand),
        },
        op@.action == op.action@ && op@.obj == op.obj@ && op@.key == op.key@ && op@.insert
            == op.insert,
        op@.pred.len() == op.pred@.len(),
        0 <= i < op.pred@.len() ==> op@.pred[i] == op.pred@[i]@,
        id_models(ids).len() == ids.len(),
        0 <= i < ids.len() ==> id_models(ids)[i] == ids[i]@,
        op_models(ops).len() == ops.len(),
        0 <= i < ops.len() ==> op_models(ops)[i] == ops[i]@,
{
}

/// A spelled out change shows what it holds.
pub proof fn spelled_out_changes_are_shown(e: ExpandedChange, i: int)
    ensures
        e@.actor_id == e.actor_id.0@,
        e@.seq == e.seq && e@.start_op == e.start_op && e@.time == e.time,
        e.hash matches Some(h) ==> e@.hash == Some(h.0@),
        e.hash is None ==> e@.hash is None,
        e.message matches Some(s) ==> e@.message == Some(s@),
        e.message is None ==> e@.message is None,
        e@.extra_bytes == e.extra_bytes@,
        e@.deps.len() == e.deps@.len(),
        0 <= i < e.deps@.len() ==> e@.deps[i] == e.deps@[i].0@,
        e@.operations.len() == e.operations@.len(),
        0 <= i < e.operations@.len() ==> e@.operations[i] == e.operations@[i]@,
{
}

} // verus!
