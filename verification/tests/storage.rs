//! Chunks, columns and the parsing of both.
use automerge::columnar::column_range::{
    BooleanRange, DeltaRange, GenericColumnRange, GroupRange, GroupedColumnRange, RawRange,
    RleRange, SimpleColRange, ValueRange,
};
use automerge::storage::change::compressed::{frame_data, Compressed};
use automerge::storage::change::{Change, ParseError as ChangeError};
use automerge::storage::chunk::{
    parse_inflated, CheckSum, Chunk, ChunkError, ChunkType, Header, HeaderError,
};
use automerge::storage::columns::{
    ColumnId, ColumnSpec, ColumnType, RawColumn, RawColumns, RawColumnsError,
};
use automerge::storage::parse::{
    actor_id, actor_ids, change_hash, change_hashes, leb128_i64, leb128_u32, leb128_u64,
    nonzero_leb128_u64, take_n, utf_8, Input, Leb128Error, ParseError,
};
use automerge::types::{ActorId, ChangeHash};
use std::borrow::Cow;
use std::ops::Range;

fn leb(e: Leb128Error) -> ParseError {
    ParseError::Error(ChangeError::Leb128(e))
}

fn u64_of(bytes: &[u8]) -> Result<(usize, u64), ParseError> {
    leb128_u64(Input::new(bytes)).map(|(i, v)| (i.position(), v))
}

fn i64_of(bytes: &[u8]) -> Result<(usize, i64), ParseError> {
    leb128_i64(Input::new(bytes)).map(|(i, v)| (i.position(), v))
}

const MANY: [u8; 9] = [0xff; 9];

fn many(last: u8) -> Vec<u8> {
    let mut out = MANY.to_vec();
    out.push(last);
    out
}

#[test]
fn unsigned_numbers() {
    assert_eq!(u64_of(&[5, 9]), Ok((1, 5)));
    assert_eq!(u64_of(&[0xac, 2]), Ok((2, 300)));
    assert_eq!(u64_of(&many(1)), Ok((10, u64::MAX)));
    assert_eq!(u64_of(&[]), Err(ParseError::Incomplete));
    assert_eq!(u64_of(&[0x80]), Err(ParseError::Incomplete));
    assert_eq!(u64_of(&[0x80, 0]), Err(leb(Leb128Error::Leb128Overlong)));
    assert_eq!(u64_of(&many(2)), Err(leb(Leb128Error::Leb128TooLarge)));
    assert_eq!(u64_of(&many(0x81)), Err(leb(Leb128Error::Leb128TooLarge)));
    let u32_of = |b: &[u8]| leb128_u32(Input::new(b)).map(|(_, v)| v);
    assert_eq!(u32_of(&[0xff, 0xff, 0xff, 0xff, 0x0f]), Ok(u32::MAX));
    assert_eq!(u32_of(&[0x80, 0x80, 0x80, 0x80, 0x10]), Err(leb(Leb128Error::Leb128TooLarge)));
    let nonzero = |b: &[u8]| nonzero_leb128_u64(Input::new(b)).map(|(_, v)| v);
    assert_eq!(nonzero(&[1]), Ok(1));
    assert_eq!(nonzero(&[0]), Err(leb(Leb128Error::UnexpectedZero)));
}

#[test]
fn signed_numbers() {
    assert_eq!(i64_of(&[0x3f]), Ok((1, 63)));
    assert_eq!(i64_of(&[0x40]), Ok((1, -64)));
    assert_eq!(i64_of(&[0xbf, 0x7f]), Ok((2, -65)));
    assert_eq!(i64_of(&many(0)), Ok((10, i64::MAX)));
    assert_eq!(i64_of(&[0xff, 0x7f]), Err(leb(Leb128Error::Leb128Overlong)));
    assert_eq!(i64_of(&[0x80, 0]), Err(leb(Leb128Error::Leb128Overlong)));
    assert_eq!(i64_of(&many(1)), Err(leb(Leb128Error::Leb128TooLarge)));
    assert_eq!(i64_of(&[0x80]), Err(ParseError::Incomplete));
}

#[test]
fn byte_strings_texts_hashes_and_actors() {
    let (i, bytes) = take_n(2, Input::new(&[1, 2, 3])).unwrap();
    assert_eq!(bytes, [1, 2]);
    assert_eq!(i.remaining(), 1);
    assert!(take_n(4, Input::new(&[1, 2, 3])).is_err());
    let (_, actor) = actor_id(Input::new(&[2, 8, 9])).unwrap();
    assert_eq!(actor, ActorId::from(vec![8, 9]));
    let (_, text) = utf_8(Input::new(b"\x02hi")).unwrap();
    assert_eq!(text, "hi");
    assert_eq!(
        utf_8(Input::new(&[1, 0xff])).unwrap_err(),
        ParseError::Error(ChangeError::InvalidUtf8)
    );
    let (_, hash) = change_hash(Input::new(&[6; 33])).unwrap();
    assert_eq!(hash, ChangeHash([6; 32]));
    assert_eq!(change_hash(Input::new(&[6; 31])).unwrap_err(), ParseError::Incomplete);
    let mut two = vec![2];
    two.extend([6; 32]);
    two.extend([7; 32]);
    let (i, hashes) = change_hashes(Input::new(&two)).unwrap();
    assert_eq!(hashes, vec![ChangeHash([6; 32]), ChangeHash([7; 32])]);
    assert!(i.is_empty());
    assert!(change_hashes(Input::new(&two[0..64])).is_err());
    let (i, actors) = actor_ids(Input::new(&[2, 0, 1, 4, 5])).unwrap();
    assert_eq!(actors, vec![ActorId::from(vec![]), ActorId::from(vec![4])]);
    assert_eq!(i.position(), 4);
    assert!(actor_ids(Input::new(&[2, 0, 1])).is_err());
}

#[test]
fn an_input_is_split() {
    let (i, _) = take_n(1, Input::new(&[1, 2, 3, 4])).unwrap();
    let split = i.split(2);
    assert_eq!(split.first.bytes(), [1, 2, 3]);
    assert_eq!(split.first.position(), 1);
    assert_eq!(split.remaining.bytes(), [4]);
    assert_eq!(split.remaining.position(), 0);
}

/// SHA-256 of the bytes 1, 3, 97, 98, 99.
const HASH: [u8; 32] = [
    0xa1, 0x8b, 0xb1, 0xcc, 0x07, 0x80, 0xac, 0x9b, 0x8a, 0x30, 0x5e, 0xbf, 0xe1, 0x26,
    0x54, 0x66, 0x8d, 0x02, 0x80, 0xf2, 0x5f, 0x39, 0xb8, 0x9e, 0x63, 0x62, 0xe8, 0x9b,
    0xf7, 0x6e, 0x32, 0x04,
];

#[test]
fn a_header() {
    let header = Header::new(ChunkType::Change, b"abc");
    assert_eq!(header.hash(), ChangeHash(HASH));
    assert_eq!(header.checksum(), CheckSum([HASH[0], HASH[1], HASH[2], HASH[3]]));
    assert_eq!(header.chunk_type(), ChunkType::Change);
    assert_eq!(header.len(), 10);
    assert_eq!(header.data_len(), 3);
    assert!(header.checksum_valid());
    let mut out = vec![];
    header.write(&mut out);
    assert_eq!(out[0..4], [0x85, 0x6f, 0x4a, 0x83]);
    assert_eq!(out[4..8], HASH[0..4]);
    assert_eq!(out[8..], [1, 3]);
    out.extend_from_slice(b"abcd");
    let (i, parsed) = Header::parse(Input::new(&out)).unwrap();
    assert_eq!(i.position(), 10);
    assert_eq!(parsed.hash(), header.hash());
    assert_eq!(parsed.len(), 10);
    assert_eq!(parsed.data_len(), 3);
    assert!(parsed.checksum_valid());
    assert_eq!(parsed.clone().hash(), parsed.hash());
    out[4] ^= 1;
    let (_, parsed) = Header::parse(Input::new(&out)).unwrap();
    assert!(!parsed.checksum_valid());
    let known = Header::with_checksum(CheckSum([0; 4]), ChunkType::Bundle, 300, ChangeHash([1; 32]));
    assert_eq!(known.len(), 11);
    assert_eq!(known.hash(), ChangeHash([1; 32]));
    assert!(!known.checksum_valid());
    assert_eq!(header.with_data(ChunkType::Change, b"abc").hash(), header.hash());
}

#[test]
fn headers_that_are_not_accepted() {
    let error = |b: &[u8]| Header::parse(Input::new(b)).unwrap_err();
    assert_eq!(error(&[0x85, 0x6f]), ParseError::Incomplete);
    assert_eq!(
        error(&[0x85, 0x6f, 0x4a, 0x84]),
        ParseError::Error(ChangeError::Header(HeaderError::InvalidMagicBytes))
    );
    assert_eq!(error(&[0x85, 0x6f, 0x4a, 0x83, 0, 0, 0]), ParseError::Incomplete);
    assert_eq!(
        error(&[0x85, 0x6f, 0x4a, 0x83, 0, 0, 0, 0, 4]),
        ParseError::Error(ChangeError::Header(HeaderError::UnknownChunkType(4)))
    );
    assert_eq!(error(&[0x85, 0x6f, 0x4a, 0x83, 0, 0, 0, 0, 1, 1]), ParseError::Incomplete);
}

#[test]
fn the_codes_of_chunk_types() {
    let types =
        [ChunkType::Document, ChunkType::Change, ChunkType::Compressed, ChunkType::Bundle];
    for (code, ty) in types.into_iter().enumerate() {
        assert_eq!(ty.code(), code as u8);
        assert_eq!(ChunkType::from_code(code as u8), Some(ty));
    }
    assert_eq!(ChunkType::from_code(4), None);
}

const BODY: [u8; 9] = [0, 1, 1, 1, 1, 0, 0, 0, 0];

#[test]
fn a_chunk_and_what_is_behind_it() {
    let mut bytes = vec![];
    Header::new(ChunkType::Change, &BODY).write(&mut bytes);
    bytes.extend(BODY);
    bytes.extend([1, 2]);
    let (rest, chunk) = Chunk::parse(Input::new(&bytes)).ok().unwrap();
    assert_eq!(rest.bytes(), [1, 2]);
    match chunk {
        Chunk::Change(change) => {
            assert_eq!(change.bytes(), &bytes[0..19]);
            assert_eq!(change.body_bytes(), BODY);
            assert_eq!(change.start_op(), 1);
            assert!(change.checksum_valid());
            assert!(change.iter_ops().next().is_none());
        }
        _ => panic!(),
    }
    let (rest, change) = Change::parse(Input::new(&bytes)).unwrap();
    assert_eq!(rest.bytes(), [1, 2]);
    assert_eq!(change.bytes(), &bytes[0..19]);
    assert_eq!(change.clone(), change);
    assert_eq!(change.clone().into_owned(), change);
    assert!(change.compress().is_none());
    let (_, chunk) = Chunk::parse(Input::new(&[0x85, 0x6f, 0x4a, 0x83, 0, 0, 0, 0, 3, 0])).ok().unwrap();
    assert!(matches!(chunk, Chunk::Other(ChunkType::Bundle)));
    assert_eq!(Chunk::parse(Input::new(&[])).err(), Some(ChunkError::Parse(ParseError::Incomplete)));
}

#[test]
fn the_data_of_a_compressed_chunk() {
    let framed = frame_data(CheckSum([1, 2, 3, 4]), &[9, 8]);
    assert_eq!(framed, vec![0x85, 0x6f, 0x4a, 0x83, 1, 2, 3, 4, 2, 2, 9, 8]);
    let header =
        Header::with_checksum(CheckSum([1, 2, 3, 4]), ChunkType::Compressed, 2, ChangeHash([0; 32]));
    let change = parse_inflated(&header, &BODY).unwrap();
    assert_eq!(change.checksum(), CheckSum([1, 2, 3, 4]));
    assert_eq!(change.body_bytes(), BODY);
    assert_eq!(change.hash(), Header::new(ChunkType::Change, &BODY).hash());
    assert!(!change.checksum_valid());
    assert_eq!(parse_inflated(&header, &BODY[0..8]).unwrap_err(), ParseError::Incomplete);
}

#[test]
fn compressed_forms() {
    let a = Compressed::new(CheckSum([1, 2, 3, 4]), Cow::Borrowed(&[1u8, 2][..]));
    let b = Compressed::new(CheckSum([1, 2, 3, 4]), Cow::Owned(vec![1, 2]));
    assert_eq!(a, b);
    assert_eq!(a.clone(), a);
    assert_eq!(a.bytes(), [1, 2]);
    assert_ne!(a, Compressed::new(CheckSum([1, 2, 3, 5]), Cow::Borrowed(&[1u8, 2][..])));
    assert_ne!(a, Compressed::new(CheckSum([1, 2, 3, 4]), Cow::Borrowed(&[1u8][..])));
    assert_eq!(a.into_owned(), b);
}

#[test]
fn column_specifications() {
    let types = [
        ColumnType::Group,
        ColumnType::Actor,
        ColumnType::Integer,
        ColumnType::DeltaInteger,
        ColumnType::Boolean,
        ColumnType::String,
        ColumnType::ValueMetadata,
        ColumnType::Value,
    ];
    for (code, ty) in types.into_iter().enumerate() {
        for deflate in [false, true] {
            let spec = ColumnSpec::new(ColumnId(7), ty, deflate);
            assert_eq!(spec.0, 112 + 8 * deflate as u32 + code as u32);
            assert_eq!(spec.id(), ColumnId(7));
            assert_eq!(spec.col_type(), ty);
            assert_eq!(spec.deflate(), deflate);
            assert_eq!(spec.normalize(), 112 + code as u32);
        }
    }
}

fn raw(list: &[(u32, Range<usize>)]) -> RawColumns {
    RawColumns(list.iter().map(|(s, d)| RawColumn::new(ColumnSpec(*s), d.clone())).collect())
}

fn parsed(bytes: &[u8]) -> Result<Vec<(u32, Range<usize>)>, ParseError> {
    let (_, cols) = RawColumns::parse(Input::new(bytes))?;
    Ok(cols.0.iter().map(|c| (c.spec().0, c.data())).collect())
}

#[test]
fn a_list_of_columns_is_read_back() {
    let cols = raw(&[(1, 0..2), (0x13, 2..2), (0x1b, 2..5)]);
    let mut bytes = vec![];
    cols.write(&mut bytes);
    assert_eq!(bytes, vec![3, 1, 2, 0x13, 0, 0x1b, 3]);
    bytes.extend([0; 5]);
    assert_eq!(parsed(&bytes).unwrap(), vec![(1, 0..2), (0x13, 2..2), (0x1b, 2..5)]);
    assert_eq!(cols.total_column_len(), 5);
    assert!(cols.clone().uncompressed().is_none());
    assert!(raw(&[(1, 0..2)]).uncompressed().is_some());
    assert_eq!(raw(&[]).total_column_len(), 0);
}

#[test]
fn lists_of_columns_that_are_not_accepted() {
    assert_eq!(parsed(&[1, 1, 2, 0]), Err(ParseError::Incomplete));
    assert_eq!(parsed(&[2, 1, 0]), Err(ParseError::Incomplete));
    assert_eq!(
        parsed(&[2, 2, 0, 1, 0]),
        Err(ParseError::Error(ChangeError::RawColumns(RawColumnsError::NotInNormalOrder)))
    );
    assert_eq!(parsed(&[2, 9, 0, 1, 0]), Ok(vec![(9, 0..0), (1, 0..0)]));
    let mut huge = vec![2, 1];
    huge.extend(many(1));
    huge.extend([2, 1, 0]);
    assert_eq!(parsed(&huge), Err(ParseError::Incomplete));
}

#[test]
fn ranges_of_columns() {
    let ints = || RleRange::<u64>::from(1..4);
    assert_eq!((ints().start(), ints().end()), (1, 4));
    assert_eq!(Range::from(ints()), 1..4);
    assert_eq!(*ints().as_ref(), 1..4);
    assert_eq!(ints(), ints().clone());
    assert_ne!(ints(), RleRange::from(1..5));
    assert_eq!(Range::from(DeltaRange::from(2..3)), 2..3);
    assert_eq!(*DeltaRange::from(2..3).as_ref(), 2..3);
    assert_eq!(Range::from(BooleanRange::from(5..9)), 5..9);
    assert_eq!(*BooleanRange::from(5..9).as_ref(), 5..9);
    assert_eq!(Range::from(RawRange::from(5..9)), 5..9);
    let strings = SimpleColRange::RleString(RleRange::from(2..6));
    assert_eq!(strings.range(), 2..6);
    assert!(matches!(strings.clone(), SimpleColRange::RleString(_)));
    assert_eq!(SimpleColRange::RleInt(ints()).range(), 1..4);
    assert_eq!(SimpleColRange::Delta(DeltaRange::from(2..3)).range(), 2..3);
    assert_eq!(SimpleColRange::Boolean(BooleanRange::from(5..9)).range(), 5..9);
}

#[test]
fn ranges_of_values_and_groups() {
    let ints = || RleRange::<u64>::from(1..4);
    let full = || ValueRange::new(ints(), RawRange::from(4..9));
    let bare = ValueRange::new(ints(), RawRange::from(4..4));
    assert_eq!(full().range(), 1..9);
    assert_eq!(bare.range(), 1..4);
    assert_eq!(full(), full().clone());
    assert_ne!(full(), bare);
    let empty = GroupRange::new(ints(), vec![]);
    assert_eq!(empty.range(), 1..4);
    let group = GroupRange::new(
        ints(),
        vec![
            GroupedColumnRange::Value(full()),
            GroupedColumnRange::Simple(SimpleColRange::Delta(DeltaRange::from(9..12))),
        ],
    );
    assert_eq!(group.range(), 1..12);
    assert_eq!(group.values[0].range(), 1..9);
    let copy = group.clone();
    assert_eq!(copy.range(), 1..12);
    assert_eq!(copy.values.len(), 2);
    assert_eq!(GenericColumnRange::Group(copy).range(), 1..12);
    assert_eq!(GenericColumnRange::Value(bare).clone().range(), 1..4);
    assert_eq!(
        GenericColumnRange::Simple(SimpleColRange::RleInt(ints())).clone().range(),
        1..4
    );
}
