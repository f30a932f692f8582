//! Changes that are spelled out, built, saved and loaded.
use automerge::change::ParseFailure;
use automerge::legacy::{ElementId, Key, MarkData, ObjType, ObjectId, Op, OpId, OpType};
use automerge::op_set2::types::ScalarValue;
use automerge::storage::change::{self as stored, Verified};
use automerge::storage::chunk::{ChunkError, HeaderError};
use automerge::storage::columns::RawColumnsError;
use automerge::storage::parse::{Input, Leb128Error, ParseError};
use automerge::{ActorId, Change, ChangeHash, ExpandedChange, LoadError, ReadChangeOpError};
use std::borrow::Cow;

const MAGPIE: [u8; 92] = [
    0x85, 0x6f, 0x4a, 0x83, 0x98, 0xf5, 0x20, 0x9e, 0x01, 0x52, 0x01, 0x07, 0x07, 0x07,
    0x07, 0x07, 0x07, 0x07, 0x07, 0x07, 0x07, 0x07, 0x07, 0x07, 0x07, 0x07, 0x07, 0x07,
    0x07, 0x07, 0x07, 0x07, 0x07, 0x07, 0x07, 0x07, 0x07, 0x07, 0x07, 0x07, 0x07, 0x07,
    0x07, 0x03, 0x01, 0x02, 0x03, 0x01, 0x01, 0x00, 0x00, 0x00, 0x0a, 0x01, 0x00, 0x02,
    0x00, 0x11, 0x00, 0x13, 0x00, 0x15, 0x06, 0x34, 0x01, 0x42, 0x02, 0x56, 0x02, 0x57,
    0x06, 0x70, 0x02, 0x7f, 0x04, 0x62, 0x69, 0x72, 0x64, 0x01, 0x7f, 0x01, 0x7f, 0x66,
    0x6d, 0x61, 0x67, 0x70, 0x69, 0x65, 0x7f, 0x00,
];

const MAGPIE_HASH: [u8; 32] = [
    0x98, 0xf5, 0x20, 0x9e, 0x83, 0xfa, 0x9c, 0x89, 0xa1, 0xaa, 0xb3, 0xae, 0xbe, 0x73,
    0x15, 0x1c, 0x46, 0x75, 0x93, 0x73, 0x0d, 0xc7, 0x3a, 0x4c, 0xe6, 0x9d, 0xf0, 0xbf,
    0x1b, 0x6e, 0xb1, 0x5a,
];

const MIXED: [u8; 231] = [
    0x85, 0x6f, 0x4a, 0x83, 0x1b, 0x7b, 0x9a, 0x4b, 0x01, 0xdc, 0x01, 0x02, 0x07, 0x07,
    0x07, 0x07, 0x07, 0x07, 0x07, 0x07, 0x07, 0x07, 0x07, 0x07, 0x07, 0x07, 0x07, 0x07,
    0x07, 0x07, 0x07, 0x07, 0x07, 0x07, 0x07, 0x07, 0x07, 0x07, 0x07, 0x07, 0x07, 0x07,
    0x07, 0x07, 0x08, 0x08, 0x08, 0x08, 0x08, 0x08, 0x08, 0x08, 0x08, 0x08, 0x08, 0x08,
    0x08, 0x08, 0x08, 0x08, 0x08, 0x08, 0x08, 0x08, 0x08, 0x08, 0x08, 0x08, 0x08, 0x08,
    0x08, 0x08, 0x08, 0x08, 0x08, 0x08, 0x01, 0x05, 0x02, 0x0a, 0x7f, 0x02, 0x68, 0x69,
    0x02, 0x01, 0x02, 0x01, 0x09, 0x0e, 0x01, 0x0a, 0x02, 0x0a, 0x11, 0x0b, 0x13, 0x0b,
    0x15, 0x0d, 0x34, 0x04, 0x42, 0x09, 0x56, 0x08, 0x57, 0x04, 0x70, 0x07, 0x71, 0x04,
    0x73, 0x04, 0x94, 0x01, 0x03, 0xa5, 0x01, 0x0a, 0x00, 0x01, 0x02, 0x00, 0x7f, 0x01,
    0x00, 0x01, 0x02, 0x01, 0x00, 0x01, 0x02, 0x0a, 0x7f, 0x03, 0x00, 0x01, 0x02, 0x03,
    0x00, 0x02, 0x7e, 0x00, 0x02, 0x00, 0x01, 0x7f, 0x02, 0x00, 0x01, 0x00, 0x01, 0x7d,
    0x00, 0x0b, 0x79, 0x00, 0x01, 0x7e, 0x00, 0x7c, 0x7f, 0x04, 0x6c, 0x69, 0x73, 0x74,
    0x00, 0x03, 0x7f, 0x01, 0x6e, 0x00, 0x02, 0x01, 0x02, 0x02, 0x02, 0x7f, 0x02, 0x02,
    0x01, 0x7e, 0x03, 0x05, 0x02, 0x07, 0x79, 0x00, 0x14, 0x23, 0x00, 0x14, 0x02, 0x00,
    0x7d, 0xac, 0x02, 0x07, 0x03, 0x00, 0x7e, 0x02, 0x01, 0x02, 0x00, 0x7d, 0x02, 0x01,
    0x02, 0x7f, 0x04, 0x02, 0x01, 0x05, 0x01, 0x01, 0x00, 0x05, 0x7f, 0x04, 0x62, 0x6f,
    0x6c, 0x64, 0x00, 0x01, 0x01, 0x02, 0x03,
];

const MIXED_HASH: [u8; 32] = [
    0x1b, 0x7b, 0x9a, 0x4b, 0x73, 0x7e, 0xe4, 0xd1, 0x28, 0x74, 0x19, 0x7a, 0x5b, 0xf6,
    0xea, 0xb2, 0x44, 0x60, 0x9a, 0x02, 0x46, 0xdb, 0x48, 0xa8, 0x25, 0x82, 0x27, 0x16,
    0xec, 0x68, 0xb8, 0x44,
];

const DEFLATED: [u8; 65] = [
    0x85, 0x6f, 0x4a, 0x83, 0x3c, 0x75, 0xf7, 0x8d, 0x02, 0x37, 0x63, 0x60, 0x66, 0x64,
    0x62, 0x66, 0x64, 0x64, 0x78, 0xc1, 0x54, 0x5c, 0x9e, 0x9f, 0x5f, 0xa0, 0x30, 0x4a,
    0xd2, 0x9a, 0x64, 0x60, 0x13, 0x65, 0x33, 0x61, 0x74, 0x62, 0x0a, 0x63, 0x0a, 0x67,
    0x2b, 0x60, 0xaa, 0x67, 0x49, 0xca, 0x2c, 0x4a, 0x61, 0xac, 0x67, 0xac, 0x4f, 0xcb,
    0x4d, 0x4c, 0x2f, 0xc8, 0x4c, 0xad, 0x67, 0x00, 0x00,
];

const DEFLATED_HASH: [u8; 32] = [
    0x3c, 0x75, 0xf7, 0x8d, 0x88, 0x73, 0x55, 0x16, 0x54, 0xb4, 0x69, 0x31, 0xef, 0x7d,
    0xe3, 0x09, 0x27, 0xf3, 0x3e, 0xfe, 0xee, 0xa5, 0x74, 0x7e, 0xa3, 0xf1, 0xd7, 0xd5,
    0x3b, 0x15, 0xe2, 0x4f,
];

const EMPTY: [u8; 37] = [
    0x85, 0x6f, 0x4a, 0x83, 0x11, 0x21, 0xd3, 0xbf, 0x01, 0x1b, 0x00, 0x01, 0x01, 0x01,
    0x04, 0x00, 0x00, 0x00, 0x09, 0x01, 0x00, 0x02, 0x00, 0x11, 0x00, 0x13, 0x00, 0x15,
    0x00, 0x34, 0x00, 0x42, 0x00, 0x56, 0x00, 0x70, 0x00,
];

fn put(key: &str, value: ScalarValue) -> Op {
    Op {
        action: OpType::Put(value),
        obj: ObjectId::Root,
        key: Key::Prop(key.to_string()),
        pred: vec![],
        insert: false,
    }
}

fn actor(bytes: &[u8]) -> ActorId {
    ActorId::from(bytes.to_vec())
}

fn id(counter: u64, name: u8) -> OpId {
    OpId::new(counter, &actor(&[name]))
}

fn magpie() -> ExpandedChange {
    ExpandedChange {
        operations: vec![put("bird", ScalarValue::Str("magpie".to_string()))],
        actor_id: actor(&[1, 2, 3]),
        hash: None,
        seq: 1,
        start_op: 1,
        time: 0,
        message: None,
        deps: vec![ChangeHash([7; 32])],
        extra_bytes: vec![],
    }
}

fn mixed() -> ExpandedChange {
    let list = || ObjectId::Id(id(10, 5));
    let other = || ObjectId::Id(id(3, 2));
    let operations = vec![
        Op {
            action: OpType::Make(ObjType::List),
            obj: ObjectId::Root,
            key: Key::Prop("list".to_string()),
            pred: vec![],
            insert: false,
        },
        Op {
            action: OpType::Put(ScalarValue::Int(-3)),
            obj: list(),
            key: Key::Elem(ElementId::Head),
            pred: vec![],
            insert: true,
        },
        Op {
            action: OpType::Put(ScalarValue::Uint(300)),
            obj: list(),
            key: Key::Elem(ElementId::Id(id(11, 5))),
            pred: vec![],
            insert: true,
        },
        Op {
            action: OpType::Delete,
            obj: other(),
            key: Key::Elem(ElementId::Id(id(4, 9))),
            pred: vec![id(4, 9), id(5, 2)],
            insert: false,
        },
        Op {
            action: OpType::Increment(7),
            obj: ObjectId::Root,
            key: Key::Prop("n".to_string()),
            pred: vec![id(6, 9)],
            insert: false,
        },
        Op {
            action: OpType::MarkBegin(MarkData {
                name: "bold".to_string(),
                value: ScalarValue::Boolean(true),
                expand: true,
            }),
            obj: other(),
            key: Key::Elem(ElementId::Id(id(4, 9))),
            pred: vec![],
            insert: true,
        },
        Op {
            action: OpType::MarkEnd(false),
            obj: other(),
            key: Key::Elem(ElementId::Head),
            pred: vec![],
            insert: true,
        },
    ];
    ExpandedChange {
        operations,
        actor_id: actor(&[5]),
        hash: None,
        seq: 2,
        start_op: 10,
        time: -1,
        message: Some("hi".to_string()),
        deps: vec![ChangeHash([7; 32]), ChangeHash([8; 32])],
        extra_bytes: vec![1, 2, 3],
    }
}

fn long_message() -> ExpandedChange {
    let mut e = magpie();
    e.message = Some("swoop ".repeat(60));
    e
}

/// Two spelled out changes are the same but for their hashes.
fn same(a: &ExpandedChange, b: &ExpandedChange) -> bool {
    format!("{:?}", a.operations) == format!("{:?}", b.operations)
        && a.actor_id == b.actor_id
        && a.seq == b.seq
        && a.start_op == b.start_op
        && a.time == b.time
        && a.message == b.message
        && a.deps == b.deps
        && a.extra_bytes == b.extra_bytes
}

fn uleb(mut v: u64) -> Vec<u8> {
    let mut out = vec![];
    loop {
        let low = (v % 128) as u8;
        v /= 128;
        if v == 0 {
            out.push(low);
            return out;
        }
        out.push(low + 128);
    }
}

fn chunk(code: u8, data: &[u8]) -> Vec<u8> {
    let mut out = vec![0x85, 0x6f, 0x4a, 0x83, 0, 0, 0, 0, code];
    out.extend(uleb(data.len() as u64));
    out.extend_from_slice(data);
    out
}

/// The body of a change by actor 1 without dependencies.
fn body(start_op: u64, cols: &[(u64, &[u8])]) -> Vec<u8> {
    let mut out = vec![0, 1, 1, 1];
    out.extend(uleb(start_op));
    out.extend_from_slice(&[0, 0, 0]);
    out.extend(uleb(cols.len() as u64));
    for (spec, data) in cols {
        out.extend(uleb(*spec));
        out.extend(uleb(data.len() as u64));
    }
    for (_, data) in cols {
        out.extend_from_slice(data);
    }
    out
}

/// The columns of one operation that puts null at key "k".
const KEY: (u64, &[u8]) = (0x15, &[0x7f, 1, b'k']);
const ACTION: (u64, &[u8]) = (0x42, &[0x7f, 1]);
const META: (u64, &[u8]) = (0x56, &[0x7f, 0]);

fn load(start_op: u64, cols: &[(u64, &[u8])]) -> Result<Change, LoadError> {
    Change::from_bytes(chunk(1, &body(start_op, cols)))
}

fn parse_error(bytes: Vec<u8>) -> ParseError {
    match Change::from_bytes(bytes) {
        Err(LoadError::Parse(ParseFailure::Chunk(ChunkError::Parse(e)))) => e,
        other => panic!("{:?}", other),
    }
}

fn op_error(start_op: u64, cols: &[(u64, &[u8])]) -> ReadChangeOpError {
    match load(start_op, cols) {
        Err(LoadError::Parse(ParseFailure::Op(e))) => e,
        other => panic!("{:?}", other),
    }
}

fn op_message(cols: &[(u64, &[u8])]) -> String {
    match op_error(1, cols) {
        ReadChangeOpError::DecodeError(e) => e.message(),
        other => panic!("{:?}", other),
    }
}

#[test]
fn a_built_change_has_these_bytes() {
    let change = Change::from_expanded(magpie());
    assert_eq!(change.raw_bytes(), MAGPIE);
    assert_eq!(change.hash(), ChangeHash(MAGPIE_HASH));
    let change = Change::from_expanded(mixed());
    assert_eq!(change.raw_bytes(), MIXED);
    assert_eq!(change.hash(), ChangeHash(MIXED_HASH));
}

#[test]
fn a_change_without_operations() {
    let mut e = magpie();
    e.operations = vec![];
    e.actor_id = actor(&[1]);
    e.deps = vec![];
    e.start_op = 4;
    let change = Change::from_expanded(e);
    assert_eq!(change.raw_bytes(), EMPTY);
    assert_eq!(change.len(), 0);
    assert!(change.is_empty());
    assert_eq!(change.start_op(), 4);
    assert_eq!(change.max_op(), 3);
    assert_eq!(change.decode().operations.len(), 0);
    let loaded = Change::from_bytes(EMPTY.to_vec()).unwrap();
    assert_eq!(loaded, change);
}

#[test]
fn getters() {
    let change = Change::from_bytes(MIXED.to_vec()).unwrap();
    assert_eq!(*change.actor_id(), actor(&[5]));
    assert_eq!(change.other_actor_ids(), [actor(&[2]), actor(&[9])]);
    let all: Vec<ActorId> = change.actors().into_iter().cloned().collect();
    assert_eq!(all, vec![actor(&[5]), actor(&[2]), actor(&[9])]);
    assert_eq!(change.len(), 7);
    assert!(!change.is_empty());
    assert_eq!(change.start_op(), 10);
    assert_eq!(change.max_op(), 16);
    assert_eq!(change.message(), Some("hi"));
    assert_eq!(change.deps(), [ChangeHash([7; 32]), ChangeHash([8; 32])]);
    assert_eq!(change.hash(), ChangeHash(MIXED_HASH));
    assert_eq!(change.seq(), 2);
    assert_eq!(change.timestamp(), -1);
    assert_eq!(change.extra_bytes(), [1, 2, 3]);
    assert_eq!(change.raw_bytes(), MIXED);
}

#[test]
fn an_imported_change_is_restored() {
    for e in [magpie, mixed, long_message] {
        let change = Change::from_expanded(e());
        let decoded = change.decode();
        assert!(same(&decoded, &e()));
        assert_eq!(decoded.hash, Some(change.hash()));
        assert_eq!(Change::from_expanded(decoded), change);
        let loaded = Change::from_bytes(change.raw_bytes().to_vec()).unwrap();
        assert!(same(&loaded.decode(), &e()));
        assert_eq!(loaded, change);
    }
}

#[test]
fn every_kind_of_value_is_restored() {
    let values = || {
        vec![
            ScalarValue::Null,
            ScalarValue::Boolean(false),
            ScalarValue::Boolean(true),
            ScalarValue::Uint(u64::MAX),
            ScalarValue::Int(i64::MIN),
            ScalarValue::F64(1.5f64.to_bits()),
            ScalarValue::Str("\u{e9}\u{1f426}".to_string()),
            ScalarValue::Bytes(vec![0, 255]),
            ScalarValue::Counter(-70),
            ScalarValue::Timestamp(1 << 40),
            ScalarValue::Unknown { type_code: 15, bytes: vec![1] },
        ]
    };
    let mut e = magpie();
    e.operations = values().into_iter().map(|v| put("k", v)).collect();
    let change = Change::from_expanded(e);
    let loaded = Change::from_bytes(change.raw_bytes().to_vec()).unwrap();
    let decoded = loaded.decode();
    for (op, value) in decoded.operations.iter().zip(values()) {
        assert_eq!(format!("{:?}", op.action), format!("{:?}", OpType::Put(value)));
    }
    assert_eq!(loaded.len(), 11);
}

#[test]
fn an_unknown_value_of_a_known_type_is_read_as_that_type() {
    let mut e = magpie();
    e.operations = vec![put("k", ScalarValue::Unknown { type_code: 7, bytes: vec![1] })];
    let decoded = Change::from_expanded(e).decode();
    assert!(matches!(&decoded.operations[0].action, OpType::Put(ScalarValue::Bytes(b)) if *b == [1]));
}

#[test]
fn an_object_without_a_counter_is_read_as_the_root() {
    let mut e = mixed();
    e.operations.truncate(2);
    e.operations[1].obj = ObjectId::Id(id(0, 9));
    let change = Change::from_expanded(e);
    assert_eq!(change.len(), 2);
    assert_eq!(change.max_op(), 11);
    let decoded = change.decode();
    assert_eq!(decoded.operations.len(), 2);
    assert!(matches!(decoded.operations[1].obj, ObjectId::Root));
    let loaded = Change::from_bytes(change.raw_bytes().to_vec()).unwrap();
    assert_eq!(loaded, change);
    assert_eq!(loaded.hash(), change.hash());
}

#[test]
fn a_mislabelled_value_makes_the_same_change_again() {
    let twice = |type_code: u8, bytes: &[u8]| {
        let mut e = magpie();
        e.operations = vec![put("k", ScalarValue::Unknown { type_code, bytes: bytes.to_vec() })];
        let first = Change::from_expanded(e);
        let again = Change::from_expanded(first.decode());
        assert_eq!(first.hash() == again.hash(), first == again);
        first == again
    };
    assert!(twice(7, &[1, 2]));
    assert!(twice(3, &[0xac, 2]));
    assert!(twice(6, b"text"));
    assert!(twice(12, &[9]));
    assert!(!twice(3, &[0x81, 0]));
    assert!(!twice(0, &[1]));
}

#[test]
fn changes_that_cannot_be_loaded_have_the_same_operations() {
    let mut e = magpie();
    e.operations = vec![];
    e.start_op = 1 << 40;
    let a = Change::from_expanded(e);
    assert!(Change::from_bytes(a.raw_bytes().to_vec()).is_err());
    let bytes = a.raw_bytes().to_vec();
    let (_, b) = stored::Change::parse(Input::new(&bytes)).unwrap();
    assert_eq!(b.bytes(), a.raw_bytes());
    assert_eq!(b.start_op(), a.start_op());
    assert!(b.iter_ops().next().is_none());
    assert_eq!(a.decode().operations.len(), 0);
}

#[test]
fn a_value_that_is_none_of_its_type_is_not_loaded() {
    let mut e = magpie();
    e.operations = vec![put("k", ScalarValue::Unknown { type_code: 3, bytes: vec![0x80] })];
    let change = Change::from_expanded(e);
    assert!(change.checked_decode().is_none());
    assert!(Change::from_bytes(change.raw_bytes().to_vec()).is_err());
}

#[test]
fn changes_with_the_same_bytes_have_the_same_operations() {
    let a = Change::from_expanded(mixed());
    let b = Change::from_bytes(MIXED.to_vec()).unwrap();
    assert_eq!(a.raw_bytes(), b.raw_bytes());
    assert!(same(&a.decode(), &b.decode()));
    assert_eq!((a.len(), a.max_op(), a.hash()), (b.len(), b.max_op(), b.hash()));
    assert!(a.raw_bytes().ends_with(a.extra_bytes()));
    assert_eq!(a.extra_bytes(), [1, 2, 3]);
}

#[test]
fn an_element_without_a_counter() {
    let elem = |name: u8| {
        let mut e = mixed();
        e.operations.truncate(4);
        e.operations[1].key = Key::Elem(ElementId::Id(id(0, name)));
        Change::from_expanded(e).decode()
    };
    assert!(matches!(elem(5).operations[1].key, Key::Elem(ElementId::Head)));
    assert!(matches!(elem(2).operations[1].key, Key::Elem(ElementId::Head)));
    match &elem(9).operations[1].key {
        Key::Elem(ElementId::Id(found)) => {
            assert_eq!(found.0, 0);
            assert_eq!(found.1, actor(&[9]));
        }
        other => panic!("{:?}", other),
    }
}

#[test]
fn an_empty_message_is_loaded_as_none() {
    let mut e = magpie();
    e.message = Some(String::new());
    let change = Change::from_expanded(e);
    assert_eq!(change.message(), Some(""));
    assert_eq!(change.decode().message, Some(String::new()));
    let loaded = Change::from_bytes(change.raw_bytes().to_vec()).unwrap();
    assert_eq!(loaded.message(), None);
}

#[test]
fn the_other_actors_are_sorted_and_without_the_author() {
    let mut e = magpie();
    e.actor_id = actor(&[3]);
    e.operations = vec![put("k", ScalarValue::Null)];
    e.operations[0].pred = vec![
        OpId::new(1, &actor(&[4, 1])),
        OpId::new(2, &actor(&[3])),
        OpId::new(3, &actor(&[4])),
        OpId::new(4, &actor(&[])),
        OpId::new(5, &actor(&[4, 1])),
    ];
    let change = Change::from_expanded(e);
    assert_eq!(change.other_actor_ids(), [actor(&[]), actor(&[4]), actor(&[4, 1])]);
    let decoded = change.decode();
    let names: Vec<Vec<u8>> = decoded.operations[0].pred.iter().map(|p| p.1.to_bytes().to_vec()).collect();
    assert_eq!(names, vec![vec![4, 1], vec![3], vec![4], vec![], vec![4, 1]]);
}

#[test]
fn the_operations_have_consecutive_ids_by_the_author() {
    let change = Change::from_bytes(MIXED.to_vec()).unwrap();
    let stored: &stored::Change<'static, Verified> = change.as_ref();
    let mut it = stored.iter_ops();
    let mut counters = vec![];
    while let Some(op) = it.next() {
        assert_eq!(op.id.actor, 0);
        counters.push(op.id.counter as u64);
    }
    assert_eq!(counters, (10..=change.max_op()).collect::<Vec<u64>>());
}

#[test]
fn a_small_change_is_saved_as_it_is() {
    let mut change = Change::from_expanded(magpie());
    assert_eq!(change.bytes(), Cow::Borrowed(&MAGPIE[..]));
    assert_eq!(change.bytes(), Cow::Borrowed(&MAGPIE[..]));
    assert_eq!(change.raw_bytes(), MAGPIE);
}

#[test]
fn a_large_change_is_saved_compressed() {
    let mut change = Change::from_expanded(long_message());
    let saved = change.bytes().into_owned();
    assert!(saved.len() < change.raw_bytes().len());
    assert_eq!(saved[0..8], change.raw_bytes()[0..8]);
    assert_eq!(saved[8], 2);
    let mut decoder = flate2::read::DeflateDecoder::new(&saved[10..]);
    let mut data = vec![];
    std::io::Read::read_to_end(&mut decoder, &mut data).unwrap();
    assert_eq!(data, change.raw_bytes()[11..]);
    assert_eq!(change.bytes(), Cow::Borrowed(&saved[..]));
    let mut loaded = Change::from_bytes(saved.clone()).unwrap();
    assert_eq!(loaded, change);
    assert_eq!(loaded.hash(), change.hash());
    assert!(same(&loaded.decode(), &long_message()));
    assert_eq!(loaded.bytes(), Cow::Borrowed(&saved[..]));
    let raw = Change::from_bytes(loaded.raw_bytes().to_vec()).unwrap();
    assert_eq!(raw.raw_bytes(), change.raw_bytes());
}

#[test]
fn the_least_size_that_is_compressed() {
    let sized = |n: usize| {
        let mut e = magpie();
        e.extra_bytes = vec![0; n];
        Change::from_expanded(e)
    };
    let spare = 256 - sized(0).raw_bytes().len() - 1;
    let mut fits = sized(spare);
    assert_eq!(fits.raw_bytes().len(), 256);
    assert_eq!(fits.bytes()[8], 1);
    let mut large = sized(spare + 1);
    assert_eq!(large.raw_bytes().len(), 257);
    assert_eq!(large.bytes()[8], 2);
}

#[test]
fn a_compressed_change_is_loaded() {
    let mut change = Change::from_bytes(DEFLATED.to_vec()).unwrap();
    assert_eq!(change.hash(), ChangeHash(DEFLATED_HASH));
    assert_eq!(change.message(), Some("swoop ".repeat(60).as_str()));
    assert_eq!(change.raw_bytes().len(), 414);
    assert_eq!(change.raw_bytes()[4..8], DEFLATED[4..8]);
    assert_eq!(change.raw_bytes()[8], 1);
    assert_eq!(change.bytes(), Cow::Borrowed(&DEFLATED[..]));
    let decoded = change.decode();
    assert!(matches!(&decoded.operations[0].action, OpType::Put(ScalarValue::Str(s)) if s == "magpie"));
}

#[test]
fn equality_and_clone() {
    let a = Change::from_expanded(magpie());
    let mut b = a.clone();
    assert_eq!(a, b);
    b.bytes();
    assert_ne!(a, b);
    assert_eq!(b, b.clone());
    assert_ne!(a, Change::from_expanded(mixed()));
    let mut c = Change::from_expanded(long_message());
    let d = Change::from_expanded(long_message());
    assert_eq!(c, d);
    c.bytes();
    assert_ne!(c, d);
}

#[test]
fn stored_changes_and_back() {
    let a = Change::from_expanded(mixed());
    let stored = stored::Change::<'static, Verified>::from(a.clone());
    assert_eq!(stored.bytes(), MIXED);
    assert_eq!(Change::from(stored), a);
    let (_, parsed) = stored::Change::parse(Input::new(&MIXED)).unwrap();
    assert_eq!(Change::try_from(parsed).unwrap(), a);
    let (_, parsed) = stored::Change::parse(Input::new(&MIXED)).unwrap();
    let mut seen = vec![];
    let verified = parsed.verify_ops(&mut seen).unwrap();
    assert_eq!(seen.len(), 7);
    assert_eq!(verified.len(), 7);
    assert!(verified.checksum_valid());
    assert_eq!(verified.body_bytes(), &MIXED[11..]);
}

#[test]
fn a_change_that_lacks_an_actor_is_not_decoded() {
    let one = |cols: &[(u64, &[u8])]| load(1, cols).unwrap().checked_decode();
    assert!(one(&[KEY, ACTION, META]).is_some());
    assert!(one(&[(0x01, &[0x7f, 1]), (0x02, &[0x7f, 3]), KEY, ACTION, META]).is_none());
    assert!(one(&[(0x01, &[0x7f, 0]), (0x02, &[0x7f, 3]), KEY, ACTION, META]).is_some());
    assert!(one(&[(0x11, &[0x7f, 1]), (0x13, &[0x7f, 3]), ACTION, META]).is_none());
    let preds: &[(u64, &[u8])] =
        &[KEY, ACTION, META, (0x70, &[0x7f, 1]), (0x71, &[0x7f, 1]), (0x73, &[0x7f, 3])];
    assert!(one(preds).is_none());
}

#[test]
fn bytes_that_are_no_chunk() {
    assert_eq!(parse_error(vec![]), ParseError::Incomplete);
    assert_eq!(parse_error(MAGPIE[0..MAGPIE.len() - 1].to_vec()), ParseError::Incomplete);
    let mut bytes = MAGPIE.to_vec();
    bytes[0] = 0;
    assert_eq!(
        parse_error(bytes),
        ParseError::Error(stored::ParseError::Header(HeaderError::InvalidMagicBytes))
    );
    assert_eq!(
        parse_error(chunk(9, &[])),
        ParseError::Error(stored::ParseError::Header(HeaderError::UnknownChunkType(9)))
    );
    let mut bytes = MAGPIE.to_vec();
    bytes.push(0);
    assert!(matches!(Change::from_bytes(bytes), Err(LoadError::LeftoverData)));
    for code in [0, 3] {
        let r = Change::from_bytes(chunk(code, &[1, 2]));
        assert!(matches!(r, Err(LoadError::WrongChunkType)));
    }
    let r = Change::from_bytes(chunk(2, &[0xff]));
    assert!(matches!(r, Err(LoadError::Parse(ParseFailure::Chunk(ChunkError::Deflate)))));
}

#[test]
fn bytes_that_are_no_change() {
    let leb = |e| ParseError::Error(stored::ParseError::Leb128(e));
    let good = body(1, &[KEY, ACTION, META]);
    assert!(Change::from_bytes(chunk(1, &good)).is_ok());
    let mut bad = good.clone();
    bad[4] = 0;
    assert_eq!(parse_error(chunk(1, &bad)), leb(Leb128Error::UnexpectedZero));
    let mut bad = good.clone();
    bad.splice(3..4, [0x81, 0x00]);
    assert_eq!(parse_error(chunk(1, &bad)), leb(Leb128Error::Leb128Overlong));
    let mut bad = good.clone();
    bad.splice(3..4, [0xff, 0xff, 0xff, 0xff, 0xff, 0xff, 0xff, 0xff, 0xff, 0x02]);
    assert_eq!(parse_error(chunk(1, &bad)), leb(Leb128Error::Leb128TooLarge));
    let mut bad = good.clone();
    bad.splice(6..7, [1, 0xff]);
    assert_eq!(
        parse_error(chunk(1, &bad)),
        ParseError::Error(stored::ParseError::InvalidUtf8)
    );
    assert_eq!(parse_error(chunk(1, &good[0..good.len() - 1])), ParseError::Incomplete);
    assert_eq!(
        parse_error(chunk(1, &body(1, &[ACTION, KEY]))),
        ParseError::Error(stored::ParseError::RawColumns(RawColumnsError::NotInNormalOrder))
    );
    assert_eq!(
        parse_error(chunk(1, &body(1, &[(0x4a, &[0x7f, 1])]))),
        ParseError::Error(stored::ParseError::CompressedChangeCols)
    );
    assert_eq!(
        parse_error(chunk(1, &body(1, &[(1 << 32, &[])]))),
        leb(Leb128Error::Leb128TooLarge)
    );
}

#[test]
fn a_change_with_an_unknown_column_has_no_operations() {
    let change = load(1, &[KEY, (0x23, &[1]), ACTION, META]).unwrap();
    assert_eq!(change.len(), 0);
    assert_eq!(change.decode().operations.len(), 0);
}

#[test]
fn what_is_malformed_behind_the_last_row_is_not_read() {
    let key: (u64, &[u8]) = (0x15, &[0x7e, 1, b'k', 9, b'l']);
    let actor: (u64, &[u8]) = (0x01, &[0x7e, 0, 0x80]);
    let ctr: (u64, &[u8]) = (0x02, &[0x7e, 3, 0x80]);
    let change = load(1, &[actor, ctr, key, ACTION, META]).unwrap();
    assert_eq!(change.len(), 1);
    assert!(matches!(&change.decode().operations[0].key, Key::Prop(s) if s == "k"));
    assert_eq!(
        op_message(&[key, (0x42, &[2, 1]), (0x56, &[2, 0])]),
        "invalid value in column key_str: malformed column data"
    );
    assert_eq!(
        op_message(&[(0x15, &[2, 1, b'k']), (0x42, &[0x7e, 1, 0x80]), (0x56, &[2, 0])]),
        "invalid value in column action: failed to fill whole buffer"
    );
}

#[test]
fn operations_that_cannot_be_read() {
    assert_eq!(op_message(&[ACTION, META]), "invalid value in column key: ambiguous or incomplete key columns");
    assert_eq!(op_message(&[KEY, ACTION]), "unexpected null in column value_meta");
    assert_eq!(op_message(&[KEY, (0x42, &[0, 1]), META]), "unexpected null in column action");
    assert_eq!(op_message(&[KEY, (0x42, &[0x7f, 8]), META]), "invalid value in column action: unknown action");
    assert_eq!(op_message(&[KEY, (0x42, &[0x7f]), META]), "invalid value in column action: failed to fill whole buffer");
    assert_eq!(
        op_message(&[(0x02, &[0x7f, 3]), KEY, ACTION, META]),
        "unexpected null in column obj_actor"
    );
    assert_eq!(
        op_message(&[(0x01, &[0x7f, 0]), KEY, ACTION, META]),
        "unexpected null in column obj_ctr"
    );
    assert_eq!(
        op_message(&[(0x01, &[0x7f, 0x80, 0x80, 0x80, 0x80, 0x10]), KEY, ACTION, META]),
        "invalid value in column obj_actor: actor index too large"
    );
    assert_eq!(
        op_message(&[KEY, ACTION, (0x56, &[0x7f, 0x16]), (0x57, &[])]),
        "invalid value in column value: raw value bytes truncated"
    );
    assert_eq!(
        op_message(&[KEY, ACTION, (0x56, &[0x7f, 0x13]), (0x57, &[0x80])]),
        "invalid value in column value: bad uleb"
    );
    assert_eq!(
        op_message(&[KEY, ACTION, (0x56, &[0x7f, 0x23]), (0x57, &[1, 1])]),
        "invalid value in column value: extra bytes"
    );
    assert_eq!(
        op_message(&[KEY, ACTION, META, (0x70, &[0x7f, 1])]),
        "unexpected null in column pred"
    );
    assert!(matches!(
        op_error(1, &[KEY, (0x42, &[0x7f, 5]), META]),
        ReadChangeOpError::InvalidOpType(automerge::error::InvalidOpType::NonNumericInc)
    ));
    assert!(matches!(
        op_error(1 << 32, &[KEY, ACTION, META]),
        ReadChangeOpError::CounterTooLarge
    ));
    assert!(matches!(
        op_error((1 << 32) - 1, &[(0x15, &[2, 1, b'k']), (0x42, &[2, 1]), (0x56, &[2, 0])]),
        ReadChangeOpError::CounterTooLarge
    ));
    assert!(matches!(op_error(1 << 32, &[]), ReadChangeOpError::CounterTooLarge));
    assert!(load((1 << 32) - 1, &[]).is_ok());
    assert!(matches!(
        op_error(1, &[(0x11, &[0x7f, 0]), (0x13, &[0x7f, 0x7f]), ACTION, META]),
        ReadChangeOpError::CounterTooLarge
    ));
}

#[test]
fn a_spelled_out_change_that_does_not_fit() {
    assert_eq!(Change::checked_from_expanded(mixed()), Some(Change::from_expanded(mixed())));
    let refused = |f: &dyn Fn(&mut ExpandedChange)| {
        let mut e = mixed();
        f(&mut e);
        Change::checked_from_expanded(e).is_none()
    };
    assert!(!refused(&|_| ()));
    assert!(refused(&|e| e.start_op = 0));
    assert!(refused(&|e| e.start_op = (1 << 32) - 6));
    assert!(!refused(&|e| e.start_op = (1 << 32) - 7));
    assert!(refused(&|e| e.operations[1].obj = ObjectId::Id(id(1 << 32, 5))));
    assert!(refused(&|e| e.operations[1].key = Key::Elem(ElementId::Id(id(1 << 32, 5)))));
    assert!(refused(&|e| e.operations[3].pred.push(id(1 << 32, 5))));
    assert!(refused(&|e| {
        let value = ScalarValue::Unknown { type_code: 16, bytes: vec![] };
        e.operations[1].action = OpType::Put(value)
    }));
    assert!(!refused(&|e| {
        e.operations.clear();
        e.start_op = u64::MAX
    }));
}
