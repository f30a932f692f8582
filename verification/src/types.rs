//! Identifiers: actors, change hashes, operations, objects and list elements.
use vstd::prelude::*;

verus! {

/// Compares two byte strings.
pub(crate) fn same_bytes(a: &[u8], b: &[u8]) -> (r: bool)
    ensures
        r == (a@ == b@),
{
    if a.len() != b.len() {
        return false;
    }
    let mut i: usize = 0;
    while i < a.len()
        invariant
            a.len() == b.len(),
            i <= a.len(),
            forall|j: int| 0 <= j < i ==> a@[j] == b@[j],
        decreases a.len() - i,
    {
        if a[i] != b[i] {
            return false;
        }
        i += 1;
    }
    assert(a@ =~= b@);
    true
}

/// Copies a byte string.
pub(crate) fn copy_bytes(a: &[u8]) -> (r: Vec<u8>)
    ensures
        r@ == a@,
{
    let mut out: Vec<u8> = Vec::new();
    out.extend_from_slice(a);
    assert(out@ =~= a@);
    out
}

/// The name of an actor: any byte string.
#[derive(Debug)]
pub struct ActorId(pub Vec<u8>);

impl View for ActorId {
    type V = Seq<u8>;

    open spec fn view(&self) -> Seq<u8> {
        self.0@
    }
}

impl ActorId {
    pub fn to_bytes(&self) -> (r: &[u8])
        ensures
            r@ == self@,
    {
        self.0.as_slice()
    }
}

impl Clone for ActorId {
    fn clone(&self) -> (r: Self)
        ensures
            r@ == self@,
    {
        ActorId(copy_bytes(self.0.as_slice()))
    }
}

impl PartialEq for ActorId {
    fn eq(&self, other: &Self) -> (r: bool)
        ensures
            r <==> self.0@ == other.0@,
    {
        same_bytes(self.0.as_slice(), other.0.as_slice())
    }
}

impl vstd::std_specs::cmp::PartialEqSpecImpl for ActorId {
    open spec fn obeys_eq_spec() -> bool {
        true
    }

    open spec fn eq_spec(&self, other: &Self) -> bool {
        self@ == other@
    }
}

impl From<Vec<u8>> for ActorId {
    fn from(bytes: Vec<u8>) -> (r: ActorId)
        ensures
            r.0@ == bytes@,
    {
        ActorId(bytes)
    }
}

impl vstd::std_specs::convert::FromSpecImpl<Vec<u8>> for ActorId {
    open spec fn obeys_from_spec() -> bool {
        true
    }

    open spec fn from_spec(bytes: Vec<u8>) -> ActorId {
        ActorId(bytes)
    }
}

/// The names behind a list of actors.
pub open spec fn actor_names(actors: Seq<ActorId>) -> Seq<Seq<u8>> {
    Seq::new(actors.len(), |i: int| actors[i]@)
}

/// Copies a list of actors.
pub(crate) fn copy_actors(actors: &[ActorId]) -> (r: Vec<ActorId>)
    ensures
        actor_names(r@) == actor_names(actors@),
{
    let mut out: Vec<ActorId> = Vec::new();
    let mut i: usize = 0;
    while i < actors.len()
        invariant
            i <= actors.len(),
            out.len() == i,
            forall|j: int| 0 <= j < i ==> (#[trigger] out@[j])@ == actors@[j]@,
        decreases actors.len() - i,
    {
        out.push(actors[i].clone());
        i += 1;
    }
    assert(actor_names(out@) =~= actor_names(actors@));
    out
}

/// The SHA-256 hash that names a change.
#[derive(Clone, Copy, Debug, PartialEq, Eq)]
pub struct ChangeHash(pub [u8; 32]);

impl View for ChangeHash {
    type V = Seq<u8>;

    open spec fn view(&self) -> Seq<u8> {
        self.0@
    }
}

impl ChangeHash {
    pub fn as_bytes(&self) -> (r: &[u8])
        ensures
            r@ == self@,
            r@.len() == 32,
    {
        self.0.as_slice()
    }
}

/// The bytes behind a list of hashes.
pub open spec fn hash_names(hashes: Seq<ChangeHash>) -> Seq<Seq<u8>> {
    Seq::new(hashes.len(), |i: int| hashes[i]@)
}

/// Copies a list of hashes.
pub(crate) fn copy_hashes(hashes: &[ChangeHash]) -> (r: Vec<ChangeHash>)
    ensures
        r@ == hashes@,
{
    let mut out: Vec<ChangeHash> = Vec::new();
    let mut i: usize = 0;
    while i < hashes.len()
        invariant
            i <= hashes.len(),
            out@ == hashes@.take(i as int),
        decreases hashes.len() - i,
    {
        out.push(hashes[i]);
        assert(hashes@.take(i as int).push(hashes@[i as int]) =~= hashes@.take(i + 1));
        i += 1;
    }
    assert(hashes@.take(i as int) =~= hashes@);
    out
}

/// The id of an operation: a Lamport counter and the index of its actor in
/// some list of actors.
#[derive(Clone, Copy, Debug, PartialEq, Eq, Structural)]
pub struct OpId {
    pub counter: u32,
    pub actor: u32,
}

/// A counter or an actor index that does not fit in 32 bits.
#[derive(Clone, Copy, Debug, PartialEq, Eq, Structural)]
pub struct OpIdTooLarge;

impl OpId {
    pub fn new(counter: u64, actor: usize) -> (r: OpId)
        requires
            counter <= u32::MAX,
            actor <= u32::MAX,
        ensures
            r.counter == counter,
            r.actor == actor,
    {
        OpId { counter: counter as u32, actor: actor as u32 }
    }

    /// Like `new`, with an error for what does not fit.
    pub fn try_new(counter: u64, actor: usize) -> (r: Result<OpId, OpIdTooLarge>)
        ensures
            r is Ok <==> counter <= u32::MAX && actor <= u32::MAX,
            r matches Ok(id) ==> id.counter == counter && id.actor == actor,
    {
        if counter <= 0xffff_ffff && actor <= 0xffff_ffff {
            Ok(OpId { counter: counter as u32, actor: actor as u32 })
        } else {
            Err(OpIdTooLarge)
        }
    }

    pub fn counter(&self) -> (r: u64)
        ensures
            r == self.counter,
    {
        self.counter as u64
    }

    pub fn icounter(&self) -> (r: i64)
        ensures
            r == self.counter,
    {
        self.counter as i64
    }

    pub fn actor(&self) -> (r: usize)
        ensures
            r == self.actor,
    {
        self.actor as usize
    }
}

/// The id of an object: that of the operation which made it, or the root.
#[derive(Clone, Copy, Debug, PartialEq, Eq, Structural)]
pub struct ObjId(pub OpId);

impl ObjId {
    pub open spec fn spec_root() -> ObjId {
        ObjId(OpId { counter: 0, actor: 0 })
    }

    pub fn root() -> (r: ObjId)
        ensures
            r == ObjId::spec_root(),
    {
        ObjId(OpId { counter: 0, actor: 0 })
    }

    pub fn is_root(&self) -> (r: bool)
        ensures
            r == (*self == ObjId::spec_root()),
    {
        self.0.counter == 0 && self.0.actor == 0
    }

    /// The operation that made the object; the root has none.
    pub fn id(&self) -> (r: Option<&OpId>)
        ensures
            r == if *self == ObjId::spec_root() {
                None
            } else {
                Some(&self.0)
            },
    {
        if self.is_root() {
            None
        } else {
            Some(&self.0)
        }
    }
}

/// The id of an element of a list: that of the operation which inserted it,
/// or the head of the list.
#[derive(Clone, Copy, Debug, PartialEq, Eq, Structural)]
pub struct ElemId(pub OpId);

impl ElemId {
    pub open spec fn spec_head() -> ElemId {
        ElemId(OpId { counter: 0, actor: 0 })
    }

    pub fn head() -> (r: ElemId)
        ensures
            r == ElemId::spec_head(),
    {
        ElemId(OpId { counter: 0, actor: 0 })
    }

    pub fn is_head(&self) -> (r: bool)
        ensures
            r == (*self == ElemId::spec_head()),
    {
        self.0.counter == 0 && self.0.actor == 0
    }
}

/// Actors compare equal exactly where their names are the same bytes.
pub proof fn actors_are_equal_by_their_names(a: &ActorId, b: &ActorId)
    ensures
        vstd::std_specs::cmp::PartialEqSpec::eq_spec(a, b) <==> a.0@ == b.0@,
{
}

/// The root and the head of a list have counter and actor zero, and nothing else
/// has.
pub proof fn the_root_and_the_head_are_zero(obj: ObjId, elem: ElemId)
    ensures
        obj == ObjId::spec_root() <==> obj.0.counter == 0 && obj.0.actor == 0,
        elem == ElemId::spec_head() <==> elem.0.counter == 0 && elem.0.actor == 0,
{
}

/// Lists of actors and of hashes show the bytes of each, in their order.
pub proof fn lists_show_their_bytes(actors: Seq<ActorId>, hashes: Seq<ChangeHash>, i: int)
    ensures
        actor_names(actors).len() == actors.len(),
        0 <= i < actors.len() ==> actor_names(actors)[i] == actors[i].0@,
        hash_names(hashes).len() == hashes.len(),
        0 <= i < hashes.len() ==> hash_names(hashes)[i] == hashes[i].0@,
{
}

} // verus!
