//! Changes.
use crate::leb;
use crate::op_set2::change::GetHash;
use crate::op_set2::op::OpBuilder;
use crate::storage::change::compressed::{self, CompressedModel};
use crate::storage::change::iter::ChangeOpIter;
use crate::storage::change::{
    self as stored, ChangeModel, Compressed, ReadChangeOpError, ReadFault, Unverified, Verified,
    DEFLATE_MIN_SIZE,
};
use crate::storage::chunk::{self, Chunk, ChunkError, ChunkModel};
use crate::storage::parse::Input;
use crate::types::{self, ActorId, ChangeHash};
use std::borrow::Cow;
use vstd::prelude::*;

pub mod expand;
pub mod import;
pub mod laws;

verus! {

/// A change: some operations by one actor, and what they depend on.
#[derive(Debug)]
pub struct Change {
    stored: stored::Change<'static, Verified>,
    compression: CompressionState,
    len: usize,
}

#[derive(Debug)]
enum CompressionState {
    /// The change has not been compressed yet.
    NotCompressed,
    /// The change has been compressed.
    Compressed(Compressed<'static>),
    /// The change is not worth compressing.
    TooSmallToCompress,
}

/// The model of what is known of the compressed form of a change.
pub enum CompressionModel {
    NotCompressed,
    Compressed(CompressedModel),
    TooSmallToCompress,
}

impl View for CompressionState {
    type V = CompressionModel;

    closed spec fn view(&self) -> CompressionModel {
        match self {
            CompressionState::NotCompressed => CompressionModel::NotCompressed,
            CompressionState::Compressed(c) => CompressionModel::Compressed(c@),
            CompressionState::TooSmallToCompress => CompressionModel::TooSmallToCompress,
        }
    }
}

/// What is known of the compressed form of a change that was just read, of its
/// compressed form or not.
pub open spec fn read_compression(compressed: Option<CompressedModel>) -> CompressionModel {
    match compressed {
        Some(c) => CompressionModel::Compressed(c),
        None => CompressionModel::NotCompressed,
    }
}

/// Why bytes are no change.
#[derive(Debug)]
pub enum LoadError {
    Parse(ParseFailure),
    /// There are bytes behind the change.
    LeftoverData,
    /// The bytes hold something else.
    WrongChunkType,
}

/// What could not be parsed.
#[derive(Debug)]
pub enum ParseFailure {
    Chunk(ChunkError),
    Op(ReadChangeOpError),
}

/// The model of a `LoadError`.
pub enum LoadFault {
    Chunk(ChunkError),
    Op(ReadFault),
    LeftoverData,
    WrongChunkType,
}

impl View for LoadError {
    type V = LoadFault;

    open spec fn view(&self) -> LoadFault {
        match self {
            LoadError::Parse(ParseFailure::Chunk(e)) => LoadFault::Chunk(*e),
            LoadError::Parse(ParseFailure::Op(e)) => LoadFault::Op(e@),
            LoadError::LeftoverData => LoadFault::LeftoverData,
            LoadError::WrongChunkType => LoadFault::WrongChunkType,
        }
    }
}

/// A parsed change of which all operations can be read.
pub open spec fn verified(change: ChangeModel) -> Result<ChangeModel, ReadFault> {
    match change.ops() {
        (_, Some(fault)) => Err(fault),
        (ops, None) => if change.start_op > u32::MAX {
            Err(ReadFault::CounterTooLarge)
        } else {
            Ok(ChangeModel { num_ops: ops.len(), ..change })
        },
    }
}

/// The change that some bytes hold, and its compressed form if they are that.
pub open spec fn loaded(bytes: Seq<u8>) -> Result<
    (ChangeModel, Option<CompressedModel>),
    LoadFault,
> {
    match chunk::chunk_parse(bytes) {
        Err(e) => Err(LoadFault::Chunk(e)),
        Ok((chunk, rest)) => if rest.len() > 0 {
            Err(LoadFault::LeftoverData)
        } else {
            match chunk {
                ChunkModel::Change(change) => match verified(change) {
                    Ok(change) => Ok((change, None)),
                    Err(e) => Err(LoadFault::Op(e)),
                },
                ChunkModel::CompressedChange(change, compressed) => match verified(change) {
                    Ok(change) => Ok((change, Some(compressed))),
                    Err(e) => Err(LoadFault::Op(e)),
                },
                ChunkModel::Other(_) => Err(LoadFault::WrongChunkType),
            }
        },
    }
}

impl View for Change {
    type V = ChangeModel;

    closed spec fn view(&self) -> ChangeModel {
        self.stored@
    }
}

impl Change {
    #[verifier::type_invariant]
    spec fn inv(self) -> bool {
        &&& self.stored@.wf()
        &&& self.len == self.stored@.num_ops
        &&& self.compression is TooSmallToCompress ==> self.stored@.bytes.len() <= DEFLATE_MIN_SIZE
    }

    /// What is known of the compressed form of the change.
    pub closed spec fn compression(&self) -> CompressionModel {
        self.compression@
    }

    pub(crate) fn new(stored: stored::Change<'static, Verified>) -> (r: Self)
        ensures
            r@ == stored@,
            r.compression() is NotCompressed,
    {
        let len: usize = stored.len();
        proof {
            use_type_invariant(&stored);
        }
        Change { stored, compression: CompressionState::NotCompressed, len }
    }

    /// A change of which all operations have been read, or the first error.
    pub(crate) fn new_from_unverified(
        stored: stored::Change<'static, Unverified>,
        compressed: Option<Compressed<'static>>,
    ) -> (r: Result<Self, ReadChangeOpError>)
        ensures
            match r {
                Ok(change) => verified(stored@) == Ok::<_, ReadFault>(change@)
                    && change.compression() == read_compression(
                    match compressed {
                        Some(c) => Some(c@),
                        None => None,
                    },
                ),
                Err(e) => verified(stored@) == Err::<ChangeModel, _>(e@),
            },
    {
        let mut seen: Vec<OpBuilder> = Vec::new();
        let stored = match stored.verify_ops(&mut seen) {
            Ok(stored) => stored,
            Err(e) => {
                return Err(e);
            },
        };
        let len: usize = stored.len();
        let compression = match compressed {
            Some(c) => CompressionState::Compressed(c),
            None => CompressionState::NotCompressed,
        };
        proof {
            use_type_invariant(&stored);
        }
        Ok(Change { stored, compression, len })
    }

    /// The author of the change.
    pub fn actor_id(&self) -> (r: &ActorId)
        ensures
            r@ == self@.actor,
    {
        self.stored.actor()
    }

    /// The author and the other actors that the operations mention.
    pub fn actors(&self) -> (r: Vec<&ActorId>)
        ensures
            r@.len() == 1 + self@.other_actors.len(),
            forall|i: int|
                0 <= i < r@.len() ==> (#[trigger] r@[i])@ == (seq![self@.actor]
                    + self@.other_actors)[i],
    {
        let mut out: Vec<&ActorId> = Vec::new();
        out.push(self.stored.actor());
        let others = self.stored.other_actors();
        let mut i: usize = 0;
        while i < others.len()
            invariant
                i <= others.len(),
                types::actor_names(others@) == self@.other_actors,
                out@.len() == 1 + i,
                forall|j: int|
                    0 <= j < out@.len() ==> (#[trigger] out@[j])@ == (seq![self@.actor]
                        + self@.other_actors)[j],
            decreases others.len() - i,
        {
            assert(others@[i as int]@ == self@.other_actors[i as int]);
            out.push(&others[i]);
            i += 1;
        }
        out
    }

    /// The actors that the operations mention besides the author.
    pub fn other_actor_ids(&self) -> (r: &[ActorId])
        ensures
            types::actor_names(r@) == self@.other_actors,
    {
        self.stored.other_actors()
    }

    /// How many operations the change has.
    pub fn len(&self) -> (r: usize)
        ensures
            r == self@.num_ops,
    {
        proof {
            use_type_invariant(self);
        }
        self.len
    }

    pub fn is_empty(&self) -> (r: bool)
        ensures
            r == (self@.num_ops == 0),
    {
        proof {
            use_type_invariant(self);
        }
        self.len == 0
    }

    /// The counter of the last operation; without one, that before the first.
    pub fn max_op(&self) -> (r: u64)
        ensures
            r == self@.start_op + self@.num_ops - 1,
    {
        proof {
            use_type_invariant(self);
        }
        self.stored.start_op() + (self.len as u64) - 1
    }

    /// The counter of the first operation.
    pub fn start_op(&self) -> (r: u64)
        ensures
            r == self@.start_op,
            r >= 1,
    {
        self.stored.start_op()
    }

    pub fn message(&self) -> (r: Option<&str>)
        ensures
            match r {
                Some(s) => self@.message == Some(s@),
                None => self@.message is None,
            },
    {
        self.stored.message()
    }

    /// The hashes of the changes that this one depends on.
    pub fn deps(&self) -> (r: &[ChangeHash])
        ensures
            types::hash_names(r@) == self@.dependencies,
    {
        self.stored.dependencies()
    }

    pub fn hash(&self) -> (r: ChangeHash)
        ensures
            r@ == self@.header.hash,
            laws::reparses(self@) ==> r@ == chunk::sha256(
                seq![1u8] + leb::uleb_bytes(self@.bytes.skip(self@.header.size as int).len())
                    + self@.bytes.skip(self@.header.size as int),
            ),
    {
        proof {
            if laws::reparses(self@) {
                laws::the_hash_is_of_all_bytes_behind_the_header(self@);
            }
        }
        self.stored.hash()
    }

    pub fn seq(&self) -> (r: u64)
        ensures
            r == self@.seq,
    {
        self.stored.seq()
    }

    pub fn timestamp(&self) -> (r: i64)
        ensures
            r == self@.timestamp,
    {
        self.stored.timestamp()
    }

    /// The bytes of the change, compressed where that is worth it. The
    /// compressed form is kept.
    pub fn bytes(&mut self) -> (r: Cow<'_, [u8]>)
        ensures
            final(self)@ == old(self)@,
            (r@, final(self).compression()) == saved(old(self)@, old(self).compression()),
            old(self).compression() is NotCompressed ==> (loaded(old(self)@.bytes) matches Ok(
                (change, None),
            ) ==> change.header == old(self)@.header ==> loaded(r@) == Ok::<_, LoadFault>(
                (change, compressed_form(final(self).compression())),
            )),
    {
        proof {
            use_type_invariant(&*self);
        }
        if matches!(self.compression, CompressionState::NotCompressed) {
            match self.stored.compress() {
                Some(compressed) => {
                    self.compression = CompressionState::Compressed(compressed);
                },
                None => {
                    self.compression = CompressionState::TooSmallToCompress;
                },
            }
        }
        let raw: &[u8] = self.stored.bytes();
        let bytes: &[u8] = match &self.compression {
            CompressionState::Compressed(c) => c.bytes(),
            _ => raw,
        };
        proof {
            assert(raw.len() <= usize::MAX);
            assert(bytes.len() <= usize::MAX);
            match loaded(old(self)@.bytes) {
                Ok((change, None)) => {
                    if old(self).compression() is NotCompressed && change.header
                        == old(self)@.header {
                        laws::loaded_change_keeps_bytes(old(self)@.bytes);
                        laws::loaded_change_reloads_packed(change);
                    }
                },
                _ => {},
            }
        }
        Cow::Borrowed(bytes)
    }

    /// The bytes of the change, not compressed.
    pub fn raw_bytes(&self) -> (r: &[u8])
        ensures
            r@ == self@.bytes,
    {
        self.stored.bytes()
    }

    /// Reads the operations of the change.
    pub(crate) fn iter_ops(&self) -> (r: ChangeOpIter<'_>)
        ensures
            r@ == self@.rows(),
            self@.ops().1 is None ==> crate::storage::change::iter::readable(r@),
    {
        self.stored.iter_ops()
    }

    /// Bytes behind the columns of the change, which are kept but not known.
    pub fn extra_bytes(&self) -> (r: &[u8])
        ensures
            r@ == self@.extra(),
            self@.bytes.skip(self@.bytes.len() - r@.len()) == r@,
    {
        proof {
            use_type_invariant(self);
            assert(self@.bytes.skip(self@.bytes.len() - self@.extra().len()) =~= self@.extra());
        }
        self.stored.extra_bytes()
    }

    /// Loads a change, compressed or not.
    pub fn from_bytes(bytes: Vec<u8>) -> (r: Result<Self, LoadError>)
        ensures
            match r {
                Ok(change) => loaded(bytes@) matches Ok((model, compressed)) && model == change@
                    && change.compression() == read_compression(compressed) && laws::reloads(
                    change@,
                ) && laws::reparses(change@),
                Err(e) => loaded(bytes@) == Err::<(ChangeModel, Option<CompressedModel>), _>(e@),
            },
    {
        Change::try_from(bytes.as_slice())
    }
}

/// The bytes of a change, compressed where that is worth it.
pub open spec fn packed(change: ChangeModel) -> Seq<u8> {
    if change.bytes.len() > DEFLATE_MIN_SIZE {
        compressed::compressed_bytes(change.header.checksum, change.body())
    } else {
        change.bytes
    }
}

/// The bytes that a change is saved as, and what is then known of its
/// compressed form, where `known` was before.
pub open spec fn saved(change: ChangeModel, known: CompressionModel) -> (
    Seq<u8>,
    CompressionModel,
) {
    match known {
        CompressionModel::Compressed(c) => (c.bytes, known),
        CompressionModel::TooSmallToCompress => (change.bytes, known),
        CompressionModel::NotCompressed => (
            packed(change),
            if change.bytes.len() > DEFLATE_MIN_SIZE {
                CompressionModel::Compressed(
                    CompressedModel { checksum: change.header.checksum, bytes: packed(change) },
                )
            } else {
                CompressionModel::TooSmallToCompress
            },
        ),
    }
}

/// The compressed form of a change, where it is known.
pub open spec fn compressed_form(known: CompressionModel) -> Option<CompressedModel> {
    match known {
        CompressionModel::Compressed(c) => Some(c),
        _ => None,
    }
}

fn same_state(a: &CompressionState, b: &CompressionState) -> (r: bool)
    ensures
        r == (a@ == b@),
{
    match (a, b) {
        (CompressionState::NotCompressed, CompressionState::NotCompressed) => true,
        (CompressionState::Compressed(c), CompressionState::Compressed(d)) => *c == *d,
        (CompressionState::TooSmallToCompress, CompressionState::TooSmallToCompress) => true,
        _ => false,
    }
}

impl PartialEq for Change {
    fn eq(&self, other: &Self) -> (r: bool)
        ensures
            r ==> self@.bytes == other@.bytes && self@.num_ops == other@.num_ops
                && self.compression() == other.compression(),
            !r ==> self@.bytes != other@.bytes || self@.num_ops != other@.num_ops
                || self.compression() != other.compression(),
    {
        proof {
            use_type_invariant(self);
            use_type_invariant(other);
        }
        self.stored == other.stored && same_state(&self.compression, &other.compression)
            && self.len == other.len
    }
}

impl vstd::std_specs::cmp::PartialEqSpecImpl for Change {
    open spec fn obeys_eq_spec() -> bool {
        true
    }

    open spec fn eq_spec(&self, other: &Self) -> bool {
        self@.bytes == other@.bytes && self.compression() == other.compression() && self@.num_ops
            == other@.num_ops
    }
}

fn copy_state(state: &CompressionState) -> (r: CompressionState)
    ensures
        r@ == state@,
{
    match state {
        CompressionState::NotCompressed => CompressionState::NotCompressed,
        CompressionState::Compressed(c) => CompressionState::Compressed(c.clone()),
        CompressionState::TooSmallToCompress => CompressionState::TooSmallToCompress,
    }
}

impl Clone for Change {
    fn clone(&self) -> (r: Self)
        ensures
            r@ == self@,
            r.compression() == self.compression(),
    {
        proof {
            use_type_invariant(self);
        }
        Change {
            stored: self.stored.clone(),
            compression: copy_state(&self.compression),
            len: self.len,
        }
    }
}

impl GetHash for Vec<Change> {
    open spec fn hashes(&self) -> Seq<Seq<u8>> {
        Seq::new(self@.len(), |i: int| self@[i]@.header.hash)
    }

    fn get_hash(&self, index: usize) -> (r: Option<ChangeHash>)
        ensures
            r is Some <==> index < self@.len(),
            r matches Some(hash) ==> hash@ == self@[index as int]@.header.hash,
    {
        if index < self.len() {
            Some(self[index].hash())
        } else {
            None
        }
    }
}

impl AsRef<stored::Change<'static, Verified>> for Change {
    fn as_ref(&self) -> (r: &stored::Change<'static, Verified>)
        ensures
            r@ == self@,
    {
        &self.stored
    }
}

impl From<stored::Change<'static, Verified>> for Change {
    fn from(s: stored::Change<'static, Verified>) -> (r: Self)
        ensures
            r@ == s@,
            r.compression() is NotCompressed,
    {
        Change::new(s)
    }
}

impl vstd::std_specs::convert::FromSpecImpl<stored::Change<'static, Verified>> for Change {
    open spec fn obeys_from_spec() -> bool {
        false
    }

    open spec fn from_spec(s: stored::Change<'static, Verified>) -> Change {
        arbitrary()
    }
}

impl From<Change> for stored::Change<'static, Verified> {
    fn from(c: Change) -> (r: Self)
        ensures
            r@ == c@,
    {
        c.stored
    }
}

impl vstd::std_specs::convert::FromSpecImpl<Change> for stored::Change<'static, Verified> {
    open spec fn obeys_from_spec() -> bool {
        false
    }

    open spec fn from_spec(c: Change) -> stored::Change<'static, Verified> {
        arbitrary()
    }
}

impl<'a> TryFrom<&'a [u8]> for Change {
    type Error = LoadError;

    fn try_from(value: &'a [u8]) -> (r: Result<Self, LoadError>)
        ensures
            match r {
                Ok(change) => loaded(value@) matches Ok((model, compressed)) && model == change@
                    && change.compression() == read_compression(compressed) && laws::reloads(
                    change@,
                ) && laws::reparses(change@),
                Err(e) => loaded(value@) == Err::<(ChangeModel, Option<CompressedModel>), _>(e@),
            },
    {
        let input = Input::new(value);
        let (remaining, chunk): (Input<'a>, Chunk<'a>) = match Chunk::parse(input) {
            Ok(read) => read,
            Err(e) => {
                return Err(LoadError::Parse(ParseFailure::Chunk(e)));
            },
        };
        if !remaining.is_empty() {
            return Err(LoadError::LeftoverData);
        }
        let read = match chunk {
            Chunk::Change(c) => Change::new_from_unverified(c.into_owned(), None),
            Chunk::CompressedChange(c, compressed) => Change::new_from_unverified(
                c,
                Some(compressed.into_owned()),
            ),
            Chunk::Other(_) => {
                return Err(LoadError::WrongChunkType);
            },
        };
        match read {
            Ok(change) => {
                let raw: &[u8] = change.raw_bytes();
                proof {
                    assert(raw.len() <= usize::MAX);
                    laws::loaded_change_reloads(value@);
                    laws::what_reloads_reparses(change@);
                }
                Ok(change)
            },
            Err(e) => Err(LoadError::Parse(ParseFailure::Op(e))),
        }
    }
}

impl<'a> vstd::std_specs::convert::TryFromSpecImpl<&'a [u8]> for Change {
    open spec fn obeys_try_from_spec() -> bool {
        false
    }

    open spec fn try_from_spec(value: &'a [u8]) -> Result<Self, LoadError> {
        arbitrary()
    }
}

impl<'a> TryFrom<stored::Change<'a, Unverified>> for Change {
    type Error = ReadChangeOpError;

    fn try_from(c: stored::Change<'a, Unverified>) -> (r: Result<Self, ReadChangeOpError>)
        ensures
            match r {
                Ok(change) => verified(c@) == Ok::<_, ReadFault>(change@) && change.compression()
                    is NotCompressed,
                Err(e) => verified(c@) == Err::<ChangeModel, _>(e@),
            },
    {
        Change::new_from_unverified(c.into_owned(), None)
    }
}

impl<'a> vstd::std_specs::convert::TryFromSpecImpl<stored::Change<'a, Unverified>> for Change {
    open spec fn obeys_try_from_spec() -> bool {
        false
    }

    open spec fn try_from_spec(c: stored::Change<'a, Unverified>) -> Result<
        Self,
        ReadChangeOpError,
    > {
        arbitrary()
    }
}

/// An error of a load shows what it is.
pub proof fn load_errors_are_shown(e: LoadError)
    ensures
        match e {
            LoadError::Parse(ParseFailure::Chunk(c)) => e@ == LoadFault::Chunk(c),
            LoadError::Parse(ParseFailure::Op(o)) => e@ == LoadFault::Op(o@),
            LoadError::LeftoverData => e@ is LeftoverData,
            LoadError::WrongChunkType => e@ is WrongChunkType,
        },
{
}

} // verus!
