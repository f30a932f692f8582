//! Chunks: a header, and data of which the header holds the type, the length
//! and a checksum.
use super::change::compressed::{self, Compressed, CompressedModel};
use super::change::{self, Change, ChangeModel, ParseError as ChangeError, Unverified};
use super::parse::{self, Input, ParseError, Parsed};
use crate::leb;
use crate::types::{same_bytes, ChangeHash};
use std::borrow::Cow;
use vstd::prelude::*;

verus! {

/// What a chunk holds.
#[derive(Clone, Copy, Debug, PartialEq, Eq, Structural)]
pub enum ChunkType {
    Document,
    Change,
    Compressed,
    Bundle,
}

impl ChunkType {
    pub open spec fn spec_code(self) -> u8 {
        match self {
            ChunkType::Document => 0,
            ChunkType::Change => 1,
            ChunkType::Compressed => 2,
            ChunkType::Bundle => 3,
        }
    }

    pub open spec fn of_code(code: u8) -> Option<ChunkType> {
        if code == 0 {
            Some(ChunkType::Document)
        } else if code == 1 {
            Some(ChunkType::Change)
        } else if code == 2 {
            Some(ChunkType::Compressed)
        } else if code == 3 {
            Some(ChunkType::Bundle)
        } else {
            None
        }
    }

    pub fn code(self) -> (r: u8)
        ensures
            r == self.spec_code(),
            ChunkType::of_code(r) == Some(self),
    {
        match self {
            ChunkType::Document => 0,
            ChunkType::Change => 1,
            ChunkType::Compressed => 2,
            ChunkType::Bundle => 3,
        }
    }

    pub fn from_code(code: u8) -> (r: Option<ChunkType>)
        ensures
            r == ChunkType::of_code(code),
    {
        match code {
            0 => Some(ChunkType::Document),
            1 => Some(ChunkType::Change),
            2 => Some(ChunkType::Compressed),
            3 => Some(ChunkType::Bundle),
            _ => None,
        }
    }
}

/// Why bytes are no header.
#[derive(Clone, Copy, Debug, PartialEq, Eq, Structural)]
pub enum HeaderError {
    InvalidMagicBytes,
    UnknownChunkType(u8),
}

/// The first four bytes of the hash of a chunk.
#[derive(Clone, Copy, Debug, PartialEq, Eq)]
pub struct CheckSum(pub [u8; 4]);

impl View for CheckSum {
    type V = Seq<u8>;

    open spec fn view(&self) -> Seq<u8> {
        self.0@
    }
}

/// The bytes that every chunk starts with.
pub open spec fn magic_bytes() -> Seq<u8> {
    seq![0x85u8, 0x6f, 0x4a, 0x83]
}

/// What `sha2::Sha256::digest` makes of some bytes.
pub uninterp spec fn sha256(data: Seq<u8>) -> Seq<u8>;

/// `sha2::Sha256::digest`: the SHA-256 hash of the bytes.
#[verifier::external_body]
fn sha256_digest(data: &[u8]) -> (r: [u8; 32])
    ensures
        r@ == sha256(data@),
{
    <sha2::Sha256 as sha2::Digest>::digest(data).into()
}

/// What the hash of a chunk is taken of.
pub open spec fn hashed_bytes(chunk_type: ChunkType, data: Seq<u8>) -> Seq<u8> {
    seq![chunk_type.spec_code()] + leb::uleb_bytes(data.len()) + data
}

/// The hash of a chunk.
pub open spec fn chunk_hash(chunk_type: ChunkType, data: Seq<u8>) -> Seq<u8> {
    sha256(hashed_bytes(chunk_type, data))
}

/// The bytes of a header.
pub open spec fn header_bytes(checksum: Seq<u8>, chunk_type: ChunkType, data_len: nat) -> Seq<u8> {
    magic_bytes() + checksum + seq![chunk_type.spec_code()] + leb::uleb_bytes(data_len)
}

/// The header of a chunk.
#[derive(Debug)]
pub struct Header {
    checksum: CheckSum,
    chunk_type: ChunkType,
    data_len: usize,
    header_size: usize,
    hash: ChangeHash,
}

/// The model of a `Header`.
pub struct HeaderModel {
    pub checksum: Seq<u8>,
    pub chunk_type: ChunkType,
    /// The length of the data behind the header.
    pub data_len: nat,
    /// The length of the header.
    pub size: nat,
    /// The hash of the chunk.
    pub hash: Seq<u8>,
}

impl View for Header {
    type V = HeaderModel;

    closed spec fn view(&self) -> HeaderModel {
        HeaderModel {
            checksum: self.checksum@,
            chunk_type: self.chunk_type,
            data_len: self.data_len as nat,
            size: self.header_size as nat,
            hash: self.hash@,
        }
    }
}

/// The header of a chunk of `data` with a given checksum.
pub open spec fn header_of(
    checksum: Seq<u8>,
    chunk_type: ChunkType,
    data: Seq<u8>,
) -> HeaderModel {
    HeaderModel {
        checksum,
        chunk_type,
        data_len: data.len(),
        size: header_bytes(checksum, chunk_type, data.len()).len(),
        hash: chunk_hash(chunk_type, data),
    }
}

/// The header of a chunk of `data`.
pub open spec fn new_header(chunk_type: ChunkType, data: Seq<u8>) -> HeaderModel {
    header_of(chunk_hash(chunk_type, data).take(4), chunk_type, data)
}

/// A header, of which the data must follow.
#[verifier::opaque]
pub open spec fn header_parse(s: Seq<u8>) -> Parsed<HeaderModel> {
    match parse::take_parse(s, 4) {
        Ok((magic, rest)) => if magic != magic_bytes() {
            Err(ParseError::Error(ChangeError::Header(HeaderError::InvalidMagicBytes)))
        } else {
            match parse::take_parse(rest, 4) {
                Ok((checksum, rest)) => match parse::take_parse(rest, 1) {
                    Ok((code, rest)) => match ChunkType::of_code(code[0]) {
                        Some(chunk_type) => match parse::u64_parse(rest) {
                            Ok((len, rest)) => if len > rest.len() {
                                Err(ParseError::Incomplete)
                            } else {
                                Ok(
                                    (
                                        header_of(checksum, chunk_type, rest.take(len as int)),
                                        rest,
                                    ),
                                )
                            },
                            Err(e) => Err(e),
                        },
                        None => Err(
                            ParseError::Error(
                                ChangeError::Header(HeaderError::UnknownChunkType(code[0])),
                            ),
                        ),
                    },
                    Err(e) => Err(e),
                },
                Err(e) => Err(e),
            }
        },
        Err(e) => Err(e),
    }
}

/// A header is parsed back from the bytes it was written to.
pub proof fn header_parse_of_bytes(
    checksum: Seq<u8>,
    chunk_type: ChunkType,
    data: Seq<u8>,
    rest: Seq<u8>,
)
    requires
        checksum.len() == 4,
        data.len() <= u64::MAX,
    ensures
        header_parse(header_bytes(checksum, chunk_type, data.len()) + data + rest) == Ok::<
            _,
            ParseError,
        >((header_of(checksum, chunk_type, data), data + rest)),
{
    reveal(header_parse);
    let s = header_bytes(checksum, chunk_type, data.len()) + data + rest;
    let len_on = leb::uleb_bytes(data.len()) + (data + rest);
    let type_on = seq![chunk_type.spec_code()] + len_on;
    let sum_on = checksum + type_on;
    assert(s =~= magic_bytes() + sum_on);
    assert(s.take(4) =~= magic_bytes());
    assert(s.skip(4) =~= sum_on);
    assert(sum_on.take(4) =~= checksum);
    assert(sum_on.skip(4) =~= type_on);
    assert(type_on.take(1)[0] == chunk_type.spec_code());
    assert(type_on.skip(1) =~= len_on);
    parse::lemma_u64_parse_of_bytes(data.len() as u64, data + rest);
    assert((data + rest).take(data.len() as int) =~= data);
}

/// A parsed header takes exactly the bytes that were read.
pub proof fn lemma_header_parse_size(s: Seq<u8>)
    ensures
        header_parse(s) matches Ok((h, rest)) ==> h.size + rest.len() == s.len() && h.data_len
            <= rest.len() && rest == s.skip(h.size as int) && s == header_bytes(
            h.checksum,
            h.chunk_type,
            h.data_len,
        ) + rest && h.checksum.len() == 4 && h == header_of(
            h.checksum,
            h.chunk_type,
            rest.take(h.data_len as int),
        ),
{
    reveal(header_parse);
    match header_parse(s) {
        Ok((h, rest)) => {
            let len_on = s.skip(4).skip(4).skip(1);
            lemma_uleb_parse_shortest(len_on, 0);
            leb::lemma_leb_limits();
            parse::lemma_uleb_parse_bounds(len_on, 0);
            assert(s =~= s.take(4) + s.skip(4));
            assert(s.skip(4) =~= s.skip(4).take(4) + s.skip(4).skip(4));
            assert(s.skip(4).skip(4) =~= s.skip(4).skip(4).take(1) + len_on);
            assert(s.skip(4).skip(4).take(1) =~= seq![h.chunk_type.spec_code()]);
            assert(s =~= header_bytes(h.checksum, h.chunk_type, h.data_len) + rest);
            assert(rest =~= s.skip(h.size as int));
        },
        Err(_) => {},
    }
}

/// A parsed number was written in its shortest form.
pub proof fn lemma_uleb_parse_shortest(s: Seq<u8>, at: nat)
    requires
        at <= 9,
    ensures
        parse::uleb_parse(s, at) matches Ok((v, rest)) ==> s == leb::uleb_bytes(v) + rest && (at
            > 0 ==> v > 0),
    decreases s.len(),
{
    if s.len() > 0 && s[0] >= 128 && at < 9 {
        lemma_uleb_parse_shortest(s.drop_first(), at + 1);
        match parse::uleb_parse(s.drop_first(), at + 1) {
            Ok((v, rest)) => {
                let w = (s[0] - 128 + 128 * v) as nat;
                assert(w % 128 == s[0] - 128);
                assert(w / 128 == v);
                assert(s =~= seq![s[0]] + s.drop_first());
                assert(s =~= leb::uleb_bytes(w) + rest);
            },
            Err(_) => {},
        }
    } else if s.len() > 0 {
        assert(s =~= seq![s[0]] + s.drop_first());
    }
}

fn hash_chunk(chunk_type: ChunkType, data: &[u8]) -> (r: ChangeHash)
    ensures
        r@ == chunk_hash(chunk_type, data@),
{
    let mut out: Vec<u8> = Vec::new();
    out.push(chunk_type.code());
    leb::write_unsigned(&mut out, data.len() as u64);
    out.extend_from_slice(data);
    assert(out@ =~= hashed_bytes(chunk_type, data@));
    ChangeHash(sha256_digest(out.as_slice()))
}

/// Appends the bytes that every chunk starts with.
pub(crate) fn write_magic(out: &mut Vec<u8>)
    ensures
        final(out)@ == old(out)@ + magic_bytes(),
{
    out.push(0x85);
    out.push(0x6f);
    out.push(0x4a);
    out.push(0x83);
    assert(out@ =~= old(out)@ + magic_bytes());
}

fn first_four(bytes: &[u8]) -> (r: [u8; 4])
    requires
        bytes@.len() >= 4,
    ensures
        r@ == bytes@.take(4),
{
    let r: [u8; 4] = [bytes[0], bytes[1], bytes[2], bytes[3]];
    assert(r@ =~= bytes@.take(4));
    r
}

impl Header {
    /// The header of a chunk of `data`.
    pub fn new(chunk_type: ChunkType, data: &[u8]) -> (r: Header)
        ensures
            r@ == new_header(chunk_type, data@),
            r@.checksum.len() == 4,
    {
        let hash = hash_chunk(chunk_type, data);
        let checksum = CheckSum(first_four(hash.as_bytes()));
        Header::with_checksum(checksum, chunk_type, data.len(), hash)
    }

    /// The header of a chunk of which the checksum and the hash are known.
    pub fn with_checksum(
        checksum: CheckSum,
        chunk_type: ChunkType,
        data_len: usize,
        hash: ChangeHash,
    ) -> (r: Header)
        ensures
            r@.checksum == checksum@,
            r@.chunk_type == chunk_type,
            r@.data_len == data_len,
            r@.hash == hash@,
            r@.size == header_bytes(checksum@, chunk_type, data_len as nat).len(),
    {
        let mut scratch: Vec<u8> = Vec::new();
        let len: usize = leb::write_unsigned(&mut scratch, data_len as u64);
        proof {
            leb::lemma_leb_limits();
            leb::lemma_uleb_read_of_bytes(data_len as nat, Seq::empty(), 0);
        }
        Header { checksum, chunk_type, data_len, header_size: len + 9, hash }
    }

    /// Parses a header. Its data must follow, and is not consumed.
    pub fn parse(input: Input<'_>) -> (r: Result<(Input<'_>, Header), ParseError>)
        requires
            input.wf(),
        ensures
            input.advanced(r, |v: Header| v@, header_parse(input.rest())),
    {
        proof {
            reveal(header_parse);
        }
        let (i, magic): (Input<'_>, &[u8]) = match parse::take_n(4, input) {
            Ok(read) => read,
            Err(e) => {
                return Err(e);
            },
        };
        if !is_magic(magic) {
            return Err(ParseError::Error(ChangeError::Header(HeaderError::InvalidMagicBytes)));
        }
        let (i, sum): (Input<'_>, &[u8]) = match parse::take_n(4, i) {
            Ok(read) => read,
            Err(e) => {
                return Err(e);
            },
        };
        let (i, code): (Input<'_>, &[u8]) = match parse::take_n(1, i) {
            Ok(read) => read,
            Err(e) => {
                return Err(e);
            },
        };
        let chunk_type = match ChunkType::from_code(code[0]) {
            Some(chunk_type) => chunk_type,
            None => {
                return Err(
                    ParseError::Error(ChangeError::Header(HeaderError::UnknownChunkType(code[0]))),
                );
            },
        };
        let (i, len): (Input<'_>, u64) = match parse::leb128_u64(i) {
            Ok(read) => read,
            Err(e) => {
                return Err(e);
            },
        };
        let data: &[u8] = match parse::take_n(len, i) {
            Ok((_, data)) => data,
            Err(e) => {
                return Err(e);
            },
        };
        let checksum = CheckSum(first_four(sum));
        assert(sum@.take(4) =~= sum@);
        let hash = hash_chunk(chunk_type, data);
        Ok((i, Header::with_checksum(checksum, chunk_type, data.len(), hash)))
    }

    /// Appends the header.
    pub fn write(&self, out: &mut Vec<u8>)
        ensures
            final(out)@ == old(out)@ + header_bytes(
                self@.checksum,
                self@.chunk_type,
                self@.data_len,
            ),
    {
        write_magic(out);
        out.extend_from_slice(self.checksum.0.as_slice());
        out.push(self.chunk_type.code());
        leb::write_unsigned(out, self.data_len as u64);
        assert(out@ =~= old(out)@ + header_bytes(
            self@.checksum,
            self@.chunk_type,
            self@.data_len,
        ));
    }

    /// The header of a chunk of other data, with the same checksum.
    pub fn with_data(&self, chunk_type: ChunkType, data: &[u8]) -> (r: Header)
        ensures
            r@ == header_of(self@.checksum, chunk_type, data@),
    {
        let hash = hash_chunk(chunk_type, data);
        Header::with_checksum(self.checksum, chunk_type, data.len(), hash)
    }

    /// The length of the header.
    pub fn len(&self) -> (r: usize)
        ensures
            r == self@.size,
    {
        self.header_size
    }

    /// The length of the data behind the header.
    pub fn data_len(&self) -> (r: usize)
        ensures
            r == self@.data_len,
    {
        self.data_len
    }

    pub fn hash(&self) -> (r: ChangeHash)
        ensures
            r@ == self@.hash,
    {
        self.hash
    }

    pub fn checksum(&self) -> (r: CheckSum)
        ensures
            r@ == self@.checksum,
    {
        self.checksum
    }

    pub fn chunk_type(&self) -> (r: ChunkType)
        ensures
            r == self@.chunk_type,
    {
        self.chunk_type
    }

    /// The checksum is that of the data.
    pub fn checksum_valid(&self) -> (r: bool)
        ensures
            r == (self@.checksum == self@.hash.take(4)),
    {
        let sum = CheckSum(first_four(self.hash.as_bytes()));
        same_bytes(self.checksum.0.as_slice(), sum.0.as_slice())
    }
}

fn is_magic(bytes: &[u8]) -> (r: bool)
    requires
        bytes@.len() == 4,
    ensures
        r == (bytes@ == magic_bytes()),
{
    let r: bool = bytes[0] == 0x85 && bytes[1] == 0x6f && bytes[2] == 0x4a && bytes[3] == 0x83;
    assert(r ==> bytes@ =~= magic_bytes());
    r
}

impl Clone for Header {
    fn clone(&self) -> (r: Self)
        ensures
            r@ == self@,
    {
        Header {
            checksum: self.checksum,
            chunk_type: self.chunk_type,
            data_len: self.data_len,
            header_size: self.header_size,
            hash: self.hash,
        }
    }
}

/// What is in a chunk.
pub enum Chunk<'a> {
    Change(Change<'a, Unverified>),
    CompressedChange(Change<'static, Unverified>, Compressed<'a>),
    /// A chunk that holds no single change. Its data is not read.
    Other(ChunkType),
}

/// The model of a `Chunk`.
pub enum ChunkModel {
    Change(ChangeModel),
    CompressedChange(ChangeModel, CompressedModel),
    Other(ChunkType),
}

impl<'a> View for Chunk<'a> {
    type V = ChunkModel;

    open spec fn view(&self) -> ChunkModel {
        match self {
            Chunk::Change(change) => ChunkModel::Change(change@),
            Chunk::CompressedChange(change, compressed) => ChunkModel::CompressedChange(
                change@,
                compressed@,
            ),
            Chunk::Other(chunk_type) => ChunkModel::Other(*chunk_type),
        }
    }
}

/// Why bytes are no chunk.
#[derive(Clone, Copy, Debug, PartialEq, Eq, Structural)]
pub enum ChunkError {
    Parse(ParseError),
    /// The data of a compressed chunk cannot be decompressed.
    Deflate,
}

/// The change in a compressed chunk. It keeps the checksum of that chunk.
pub open spec fn inflated_change_parse(checksum: Seq<u8>, data: Seq<u8>) -> Result<
    ChangeModel,
    ParseError,
> {
    let header = header_of(checksum, ChunkType::Change, data);
    change::change_parse(
        header_bytes(checksum, ChunkType::Change, data.len()) + data,
        header.size,
        header,
    )
}

/// The chunk at the front of `s`, and the bytes behind it.
pub open spec fn chunk_parse(s: Seq<u8>) -> Result<(ChunkModel, Seq<u8>), ChunkError> {
    match header_parse(s) {
        Err(e) => Err(ChunkError::Parse(e)),
        Ok((header, rest)) => {
            let len = (header.size + header.data_len) as int;
            match header.chunk_type {
                ChunkType::Change => match change::change_parse(s.take(len), header.size, header) {
                    Ok(change) => Ok((ChunkModel::Change(change), s.skip(len))),
                    Err(e) => Err(ChunkError::Parse(e)),
                },
                ChunkType::Compressed => match compressed::inflated(
                    rest.take(header.data_len as int),
                ) {
                    None => Err(ChunkError::Deflate),
                    Some(data) => match inflated_change_parse(header.checksum, data) {
                        Ok(change) => Ok(
                            (
                                ChunkModel::CompressedChange(
                                    change,
                                    CompressedModel {
                                        checksum: header.checksum,
                                        bytes: s.take(len),
                                    },
                                ),
                                s.skip(len),
                            ),
                        ),
                        Err(e) => Err(ChunkError::Parse(e)),
                    },
                },
                chunk_type => Ok((ChunkModel::Other(chunk_type), s.skip(len))),
            }
        },
    }
}

/// Parses the change of which `data` is the body. It keeps the checksum of
/// `header`.
pub fn parse_inflated(header: &Header, data: &[u8]) -> (r: Result<
    Change<'static, Unverified>,
    ParseError,
>)
    ensures
        match r {
            Ok(change) => inflated_change_parse(header@.checksum, data@) == Ok::<_, ParseError>(
                change@,
            ),
            Err(e) => inflated_change_parse(header@.checksum, data@) == Err::<ChangeModel, _>(e),
        },
{
    let inner_header = header.with_data(ChunkType::Change, data);
    let mut inner: Vec<u8> = Vec::new();
    inner_header.write(&mut inner);
    inner.extend_from_slice(data);
    let ghost bytes = header_bytes(header@.checksum, ChunkType::Change, data@.len()) + data@;
    proof {
        assert(inner@ =~= bytes);
        assert(header@.checksum.len() == 4);
        header_parse_of_bytes(header@.checksum, ChunkType::Change, data@, Seq::empty());
        assert(bytes + Seq::<u8>::empty() =~= bytes);
        assert(bytes.take(bytes.len() as int) =~= bytes);
    }
    match Change::parse(Input::new(inner.as_slice())) {
        Ok((_, change)) => Ok(change.into_owned()),
        Err(e) => Err(e),
    }
}

impl<'a> Chunk<'a> {
    /// Parses the chunk at the front of `input`, of which nothing was read.
    pub fn parse(input: Input<'a>) -> (r: Result<(Input<'a>, Chunk<'a>), ChunkError>)
        requires
            input.wf(),
            input.at() == 0,
        ensures
            match r {
                Ok((i, chunk)) => i.wf() && chunk_parse(input.whole()) == Ok::<_, ChunkError>(
                    (chunk@, i.rest()),
                ),
                Err(e) => chunk_parse(input.whole()) == Err::<(ChunkModel, Seq<u8>), _>(e),
            },
    {
        proof {
            assert(input.rest() =~= input.whole());
            lemma_header_parse_size(input.rest());
        }
        let (i, header): (Input<'a>, Header) = match Header::parse(input) {
            Ok(read) => read,
            Err(e) => {
                return Err(ChunkError::Parse(e));
            },
        };
        let len: usize = header.data_len();
        let split = i.split(len);
        proof {
            assert(i.at() == header@.size);
            assert(split.remaining.rest() =~= input.whole().skip(
                (header@.size + header@.data_len) as int,
            ));
        }
        match header.chunk_type() {
            ChunkType::Change => match Change::parse_following_header(split.first, header) {
                Ok(change) => Ok((split.remaining, Chunk::Change(change))),
                Err(e) => Err(ChunkError::Parse(e)),
            },
            ChunkType::Compressed => {
                let whole = split.first.bytes();
                let start: usize = i.position();
                let data = match compressed::inflate(&whole[start..whole.len()]) {
                    Some(data) => data,
                    None => {
                        proof {
                            assert(whole@.subrange(start as int, whole@.len() as int)
                                =~= i.rest().take(len as int));
                        }
                        return Err(ChunkError::Deflate);
                    },
                };
                proof {
                    assert(whole@.subrange(start as int, whole@.len() as int) =~= i.rest().take(
                        len as int,
                    ));
                }
                match parse_inflated(&header, data.as_slice()) {
                    Ok(change) => {
                        let compressed = Compressed::new(header.checksum(), Cow::Borrowed(whole));
                        Ok((split.remaining, Chunk::CompressedChange(change, compressed)))
                    },
                    Err(e) => Err(ChunkError::Parse(e)),
                }
            },
            chunk_type => Ok((split.remaining, Chunk::Other(chunk_type))),
        }
    }
}

/// What is hashed says what the chunk holds: other data or another type give
/// other bytes to hash.
pub proof fn hashed_bytes_tell_chunks_apart(
    t1: ChunkType,
    d1: Seq<u8>,
    t2: ChunkType,
    d2: Seq<u8>,
)
    requires
        d1.len() <= u64::MAX,
        d2.len() <= u64::MAX,
        hashed_bytes(t1, d1) == hashed_bytes(t2, d2),
    ensures
        t1 == t2,
        d1 == d2,
{
    let s = hashed_bytes(t1, d1);
    assert(s[0] == t1.spec_code() && s[0] == t2.spec_code());
    leb::lemma_leb_limits();
    leb::lemma_uleb_read_of_bytes(d1.len(), d1, 0);
    leb::lemma_uleb_read_of_bytes(d2.len(), d2, 0);
    assert(s.skip(1) =~= leb::uleb_bytes(d1.len()) + d1);
    assert(s.skip(1) =~= leb::uleb_bytes(d2.len()) + d2);
    let n = leb::uleb_bytes(d1.len()).len() as int;
    assert(s.skip(1).skip(n) =~= d1);
    assert(s.skip(1).skip(n) =~= d2);
}

/// The types of chunks have the numbers from 0 to 3, and no other number is one.
pub proof fn chunk_types_have_these_numbers(chunk_type: ChunkType, code: u8)
    ensures
        ChunkType::of_code(code) == Some(chunk_type) <==> chunk_type.spec_code() == code,
        ChunkType::of_code(code) is Some <==> code <= 3,
        chunk_type.spec_code() == match chunk_type {
            ChunkType::Document => 0u8,
            ChunkType::Change => 1u8,
            ChunkType::Compressed => 2u8,
            ChunkType::Bundle => 3u8,
        },
{
}

/// The hash of a chunk is that of its type, the length of its data and all of
/// its data.
pub proof fn the_whole_chunk_is_hashed(chunk_type: ChunkType, data: Seq<u8>)
    ensures
        chunk_hash(chunk_type, data) == sha256(
            seq![
                match chunk_type {
                    ChunkType::Document => 0u8,
                    ChunkType::Change => 1u8,
                    ChunkType::Compressed => 2u8,
                    ChunkType::Bundle => 3u8,
                },
            ] + leb::uleb_bytes(data.len()) + data,
        ),
{
}

/// A header starts with four fixed bytes and four of a checksum. Then come the
/// number of the type and the length of the data, which follows.
pub proof fn headers_are_laid_out_so(s: Seq<u8>)
    ensures
        header_parse(s) matches Ok((h, rest)) ==> {
            let n = s.len() - rest.len();
            &&& s[0] == 0x85 && s[1] == 0x6f && s[2] == 0x4a && s[3] == 0x83
            &&& h.checksum == s.subrange(4, 8)
            &&& s[8] == match h.chunk_type {
                ChunkType::Document => 0u8,
                ChunkType::Change => 1u8,
                ChunkType::Compressed => 2u8,
                ChunkType::Bundle => 3u8,
            }
            &&& s.subrange(9, n) == leb::uleb_bytes(h.data_len)
            &&& h.size == n
            &&& rest == s.skip(n)
            &&& h.data_len <= rest.len()
            &&& h.hash == sha256(
                seq![s[8]] + leb::uleb_bytes(h.data_len) + rest.take(h.data_len as int),
            )
        },
{
    lemma_header_parse_size(s);
    match header_parse(s) {
        Ok((h, rest)) => {
            let front = header_bytes(h.checksum, h.chunk_type, h.data_len);
            let n = s.len() - rest.len();
            assert(s == front + rest);
            assert(front.len() == n);
            assert(s.subrange(4, 8) =~= h.checksum);
            assert(s.subrange(9, n) =~= leb::uleb_bytes(h.data_len));
        },
        Err(_) => {},
    }
}

/// A header is accepted exactly where it is laid out as it should be, and
/// otherwise the first thing that is wrong is the error.
pub proof fn headers_are_accepted_so(s: Seq<u8>)
    ensures
        header_parse(s) is Ok <==> {
            &&& s.len() >= 9
            &&& s[0] == 0x85 && s[1] == 0x6f && s[2] == 0x4a && s[3] == 0x83
            &&& s[8] <= 3
            &&& exists|len: u64, rest: Seq<u8>|
                s.skip(9) == #[trigger] (leb::uleb_bytes(len as nat) + rest) && len <= rest.len()
        },
        s.len() < 4 ==> header_parse(s) == Err::<(HeaderModel, Seq<u8>), _>(ParseError::Incomplete),
        s.len() >= 4 && !(s[0] == 0x85 && s[1] == 0x6f && s[2] == 0x4a && s[3] == 0x83)
            ==> header_parse(s) == Err::<(HeaderModel, Seq<u8>), _>(
            ParseError::Error(ChangeError::Header(HeaderError::InvalidMagicBytes)),
        ),
        s.len() >= 9 && s[0] == 0x85 && s[1] == 0x6f && s[2] == 0x4a && s[3] == 0x83 && s[8] > 3
            ==> header_parse(s) == Err::<(HeaderModel, Seq<u8>), _>(
            ParseError::Error(ChangeError::Header(HeaderError::UnknownChunkType(s[8]))),
        ),
{
    reveal(header_parse);
    let magic = s[0] == 0x85 && s[1] == 0x6f && s[2] == 0x4a && s[3] == 0x83;
    if s.len() >= 4 {
        assert(s.take(4) == magic_bytes() <==> magic) by {
            if magic {
                assert(s.take(4) =~= magic_bytes());
            } else {
                assert(s.take(4)[0] == s[0] && s.take(4)[1] == s[1] && s.take(4)[2] == s[2]
                    && s.take(4)[3] == s[3]);
            }
        }
    }
    if s.len() >= 9 {
        assert(s.skip(4).skip(4).take(1)[0] == s[8]);
        assert(s.skip(4).skip(4).skip(1) =~= s.skip(9));
        let on = s.skip(9);
        match parse::u64_parse(on) {
            Ok((len, rest)) => {
                lemma_uleb_parse_shortest(on, 0);
                leb::lemma_leb_limits();
                parse::lemma_uleb_parse_bounds(on, 0);
                assert(on == leb::uleb_bytes(len as nat) + rest);
            },
            Err(_) => {},
        }
        assert forall|len: u64, rest: Seq<u8>|
            on == #[trigger] (leb::uleb_bytes(len as nat) + rest) implies parse::u64_parse(on)
            == Ok::<_, ParseError>((len, rest)) by {
            parse::lemma_u64_parse_of_bytes(len, rest);
        }
    }
}

/// Where the fixed bytes and the type of a header are right, it fails for its
/// length, and where its data does not follow it is incomplete.
pub proof fn headers_fail_so(s: Seq<u8>)
    ensures
        ({
            let magic = s[0] == 0x85 && s[1] == 0x6f && s[2] == 0x4a && s[3] == 0x83;
            let failed = header_parse(s);
            &&& 4 <= s.len() < 9 && magic ==> failed == Err::<(HeaderModel, Seq<u8>), _>(
                ParseError::Incomplete,
            )
            &&& s.len() >= 9 && magic && s[8] <= 3 ==> match parse::u64_parse(s.skip(9)) {
                Err(e) => failed == Err::<(HeaderModel, Seq<u8>), _>(e),
                Ok((len, rest)) => len > rest.len() ==> failed == Err::<
                    (HeaderModel, Seq<u8>),
                    _,
                >(ParseError::Incomplete),
            }
        }),
{
    reveal(header_parse);
    let magic = s[0] == 0x85 && s[1] == 0x6f && s[2] == 0x4a && s[3] == 0x83;
    if s.len() >= 4 && magic {
        assert(s.take(4) =~= magic_bytes());
    }
    if s.len() >= 9 {
        assert(s.skip(4).skip(4).take(1)[0] == s[8]);
        assert(s.skip(4).skip(4).skip(1) =~= s.skip(9));
    }
}

/// A chunk is its header and its data, and what stands behind is left. A change
/// is that of its data, and a compressed one that of the data that its own
/// inflates to. It keeps the checksum of the chunk, and its hash is that of the
/// number 1 and all of its body behind its length.
pub proof fn chunks_are_parsed_so(s: Seq<u8>)
    requires
        s.len() <= usize::MAX,
    ensures
        chunk_parse(s) matches Ok((chunk, rest)) ==> {
            let whole = s.take(s.len() - rest.len());
            let fixed = seq![0x85u8, 0x6f, 0x4a, 0x83] + s.subrange(4, 8);
            exists|data: Seq<u8>|
                whole == #[trigger] (fixed + seq![s[8]] + leb::uleb_bytes(data.len()) + data)
                    && match chunk {
                    ChunkModel::Change(change) => {
                        &&& s[8] == 1
                        &&& change.bytes == whole
                        &&& change.body() == data
                        &&& change.header.checksum == s.subrange(4, 8)
                        &&& change.header.hash == sha256(
                            seq![1u8] + leb::uleb_bytes(data.len()) + data,
                        )
                    },
                    ChunkModel::CompressedChange(change, compressed) => {
                        &&& s[8] == 2
                        &&& compressed.bytes == whole
                        &&& compressed.checksum == s.subrange(4, 8)
                        &&& compressed::inflated(data) == Some(change.body())
                        &&& change.bytes == fixed + seq![1u8] + leb::uleb_bytes(
                            change.body().len(),
                        ) + change.body()
                        &&& change.header.checksum == s.subrange(4, 8)
                        &&& change.header.hash == sha256(
                            seq![1u8] + leb::uleb_bytes(change.body().len()) + change.body(),
                        )
                    },
                    ChunkModel::Other(chunk_type) => {
                        &&& chunk_type is Document <==> s[8] == 0
                        &&& chunk_type is Bundle <==> s[8] == 3
                        &&& s[8] == 0 || s[8] == 3
                    },
                }
        },
        s[8] == 2 && (header_parse(s) matches Ok((h, rest)) && compressed::inflated(
            rest.take(h.data_len as int),
        ) is None) ==> chunk_parse(s) == Err::<(ChunkModel, Seq<u8>), _>(ChunkError::Deflate),
        header_parse(s) matches Err(e) ==> chunk_parse(s) == Err::<(ChunkModel, Seq<u8>), _>(
            ChunkError::Parse(e),
        ),
{
    headers_are_laid_out_so(s);
    lemma_header_parse_size(s);
    match (header_parse(s), chunk_parse(s)) {
        (Ok((h, on)), Ok((chunk, rest))) => {
            let len = (h.size + h.data_len) as int;
            let data = on.take(h.data_len as int);
            let whole = s.take(len);
            let fixed = seq![0x85u8, 0x6f, 0x4a, 0x83] + s.subrange(4, 8);
            assert(rest == s.skip(len));
            assert(s.take(s.len() - rest.len()) =~= whole);
            assert(data.len() == h.data_len);
            assert(whole =~= fixed + seq![s[8]] + leb::uleb_bytes(data.len()) + data) by {
                assert(s == header_bytes(h.checksum, h.chunk_type, h.data_len) + on);
            }
            match chunk {
                ChunkModel::Change(change) => {
                    assert(change.body() =~= data);
                },
                ChunkModel::CompressedChange(change, _) => {
                    let d = compressed::inflated(data)->0;
                    assert(change.body() =~= d);
                },
                _ => {},
            }
        },
        _ => {},
    }
}

/// A header knows its checksum, its type, how long the data is, how many bytes it
/// takes itself, and the hash of the type, the length of the data and all of the
/// data. A new one has the first four bytes of the hash for its checksum.
pub proof fn headers_are_made_so(checksum: Seq<u8>, chunk_type: ChunkType, data: Seq<u8>)
    ensures
        ({
            let number = match chunk_type {
                ChunkType::Document => 0u8,
                ChunkType::Change => 1u8,
                ChunkType::Compressed => 2u8,
                ChunkType::Bundle => 3u8,
            };
            let len = leb::uleb_bytes(data.len());
            let hash = sha256(seq![number] + len + data);
            let header = header_of(checksum, chunk_type, data);
            let fresh = new_header(chunk_type, data);
            &&& header.checksum == checksum
            &&& header.chunk_type == chunk_type
            &&& header.data_len == data.len()
            &&& header.size == checksum.len() + 5 + len.len()
            &&& header.hash == hash
            &&& fresh.checksum == hash.take(4)
            &&& fresh.chunk_type == chunk_type
            &&& fresh.data_len == data.len()
            &&& fresh.size == hash.take(4).len() + 5 + len.len()
            &&& fresh.hash == hash
            &&& header_bytes(checksum, chunk_type, data.len()) == seq![0x85u8, 0x6f, 0x4a, 0x83]
                + checksum + seq![number] + len
        }),
{
}

/// A chunk shows what it holds.
pub proof fn chunks_show_what_they_hold(chunk: Chunk<'_>)
    ensures
        match chunk {
            Chunk::Change(change) => chunk@ == ChunkModel::Change(change@),
            Chunk::CompressedChange(change, compressed) => chunk@ == ChunkModel::CompressedChange(
                change@,
                compressed@,
            ),
            Chunk::Other(chunk_type) => chunk@ == ChunkModel::Other(chunk_type),
        },
{
}

} // verus!
