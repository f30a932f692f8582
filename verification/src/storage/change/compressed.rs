//! Compressed changes.
use super::{Change, OpReadState};
use crate::leb;
use crate::storage::chunk::{self, CheckSum, ChunkType};
use crate::types::{copy_bytes, same_bytes};
use std::borrow::Cow;
use vstd::prelude::*;

verus! {

/// What `flate2::bufread::DeflateEncoder` makes of some bytes.
pub uninterp spec fn deflated(data: Seq<u8>) -> Seq<u8>;

/// What `flate2::bufread::DeflateDecoder` makes of some bytes.
pub uninterp spec fn inflated(data: Seq<u8>) -> Option<Seq<u8>>;

/// `flate2::bufread::DeflateEncoder` with the default compression, read to its
/// end. Decoding the result gives the bytes back. Reading of a slice into a
/// vector does not fail.
#[verifier::external_body]
fn deflate(data: &[u8]) -> (r: Vec<u8>)
    ensures
        r@ == deflated(data@),
        inflated(r@) == Some(data@),
{
    let mut encoder = flate2::bufread::DeflateEncoder::new(data, flate2::Compression::default());
    let mut out: Vec<u8> = Vec::new();
    std::io::Read::read_to_end(&mut encoder, &mut out).unwrap();
    out
}

/// `flate2::bufread::DeflateDecoder`, read to its end; `None` where it reports
/// an error.
#[verifier::external_body]
pub(crate) fn inflate(data: &[u8]) -> (r: Option<Vec<u8>>)
    ensures
        r is Some <==> inflated(data@) is Some,
        r matches Some(out) ==> inflated(data@) == Some(out@),
{
    let mut decoder = flate2::bufread::DeflateDecoder::new(data);
    let mut out: Vec<u8> = Vec::new();
    match std::io::Read::read_to_end(&mut decoder, &mut out) {
        Ok(_) => Some(out),
        Err(_) => None,
    }
}

/// The bytes of a chunk of compressed data. The checksum is that of the change.
pub open spec fn framed_data(checksum: Seq<u8>, data: Seq<u8>) -> Seq<u8> {
    chunk::header_bytes(checksum, ChunkType::Compressed, data.len()) + data
}

/// The bytes of the compressed form of a change.
pub open spec fn compressed_bytes(checksum: Seq<u8>, body: Seq<u8>) -> Seq<u8> {
    framed_data(checksum, deflated(body))
}

/// The chunk of some compressed data.
pub fn frame_data(checksum: CheckSum, data: &[u8]) -> (r: Vec<u8>)
    ensures
        r@ == framed_data(checksum@, data@),
{
    let mut out: Vec<u8> = Vec::new();
    chunk::write_magic(&mut out);
    out.extend_from_slice(checksum.0.as_slice());
    out.push(ChunkType::Compressed.code());
    leb::write_unsigned(&mut out, data.len() as u64);
    out.extend_from_slice(data);
    assert(out@ =~= framed_data(checksum@, data@));
    out
}

/// The compressed form of a change.
#[derive(Debug)]
pub struct Compressed<'a> {
    checksum: CheckSum,
    bytes: Cow<'a, [u8]>,
}

/// The model of a `Compressed`.
pub struct CompressedModel {
    pub checksum: Seq<u8>,
    pub bytes: Seq<u8>,
}

impl<'a> View for Compressed<'a> {
    type V = CompressedModel;

    closed spec fn view(&self) -> CompressedModel {
        CompressedModel { checksum: self.checksum@, bytes: self.bytes@ }
    }
}

impl<'a> Compressed<'a> {
    pub fn new(checksum: CheckSum, bytes: Cow<'a, [u8]>) -> (r: Self)
        ensures
            r@ == (CompressedModel { checksum: checksum@, bytes: bytes@ }),
    {
        Compressed { checksum, bytes }
    }

    /// The compressed form of `change`.
    pub fn compress<'b, O: OpReadState>(change: &Change<'b, O>) -> (r: Compressed<'static>)
        ensures
            r@ == (CompressedModel {
                checksum: change@.header.checksum,
                bytes: compressed_bytes(change@.header.checksum, change@.body()),
            }),
            inflated(deflated(change@.body())) == Some(change@.body()),
    {
        let data = deflate(change.body_bytes());
        let checksum = change.checksum();
        let bytes: Cow<'static, [u8]> = Cow::Owned(frame_data(checksum, data.as_slice()));
        Compressed { checksum, bytes }
    }

    pub fn bytes(&self) -> (r: &[u8])
        ensures
            r@ == self@.bytes,
    {
        match &self.bytes {
            Cow::Borrowed(b) => b,
            Cow::Owned(b) => b.as_slice(),
        }
    }

    pub fn into_owned(self) -> (r: Compressed<'static>)
        ensures
            r@ == self@,
    {
        let bytes: Cow<'static, [u8]> = match self.bytes {
            Cow::Borrowed(b) => Cow::Owned(copy_bytes(b)),
            Cow::Owned(b) => Cow::Owned(b),
        };
        Compressed { checksum: self.checksum, bytes }
    }
}

impl<'a> PartialEq for Compressed<'a> {
    fn eq(&self, other: &Self) -> (r: bool)
        ensures
            r <==> self@.checksum == other@.checksum && self@.bytes == other@.bytes,
    {
        same_bytes(self.checksum.0.as_slice(), other.checksum.0.as_slice()) && same_bytes(
            self.bytes(),
            other.bytes(),
        )
    }
}

impl<'a> vstd::std_specs::cmp::PartialEqSpecImpl for Compressed<'a> {
    open spec fn obeys_eq_spec() -> bool {
        true
    }

    open spec fn eq_spec(&self, other: &Self) -> bool {
        self@ == other@
    }
}

impl<'a> Clone for Compressed<'a> {
    fn clone(&self) -> (r: Self)
        ensures
            r@ == self@,
    {
        Compressed { checksum: self.checksum, bytes: Cow::Owned(copy_bytes(self.bytes())) }
    }
}

/// Compressed forms compare equal exactly where their checksums and their bytes
/// are the same.
pub proof fn compressed_forms_are_equal_by_their_bytes<'a>(a: &Compressed<'a>, b: &Compressed<'a>)
    ensures
        vstd::std_specs::cmp::PartialEqSpec::eq_spec(a, b) <==> a@.checksum == b@.checksum
            && a@.bytes == b@.bytes,
{
}

/// The compressed form of a change is a chunk: the fixed bytes, the checksum of
/// the change, the number 2, the length of the compressed body, and that.
pub proof fn compressed_chunks_are_laid_out_so(checksum: Seq<u8>, body: Seq<u8>)
    ensures
        compressed_bytes(checksum, body) == seq![0x85u8, 0x6f, 0x4a, 0x83] + checksum + seq![2u8]
            + leb::uleb_bytes(deflated(body).len()) + deflated(body),
        framed_data(checksum, body) == seq![0x85u8, 0x6f, 0x4a, 0x83] + checksum + seq![2u8]
            + leb::uleb_bytes(body.len()) + body,
{
}

} // verus!
