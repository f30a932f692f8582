//! Operations and the changes that are built of them.
use automerge::legacy::{self, OpTypeParts};
use automerge::op_set2::change::columns::{write_change_ops, ChangeOpsColumns};
use automerge::op_set2::change::mapper::ActorMapper;
use automerge::op_set2::change::{
    build_change, build_change_inner, length_prefixed_bytes, shift_range, BuildChangeMetadata,
    GetHash,
};
use automerge::op_set2::op::OpBuilder;
use automerge::op_set2::types::{Action, KeyRef, ScalarValue};
use automerge::types::{ElemId, ObjId, OpId, OpIdTooLarge};
use automerge::{ActorId, Change, ChangeHash};
use std::borrow::Cow;
use std::cmp::Ordering;

fn op_id(counter: u32, actor: u32) -> OpId {
    OpId { counter, actor }
}

fn actors(names: &[u8]) -> Vec<ActorId> {
    names.iter().map(|n| ActorId::from(vec![*n])).collect()
}

fn put(id: OpId, obj: ObjId, pred: Vec<OpId>) -> OpBuilder {
    OpBuilder {
        id,
        obj,
        action: Action::Put,
        key: KeyRef::Prop("k".to_string()),
        value: ScalarValue::Uint(9),
        insert: false,
        expand: false,
        mark_name: None,
        pred,
    }
}

fn metadata(actor: usize, deps: Vec<u64>) -> BuildChangeMetadata<'static> {
    BuildChangeMetadata {
        actor,
        builder: 0,
        seq: 3,
        max_op: 7,
        timestamp: 12,
        message: Some("built".to_string()),
        deps,
        extra: Cow::Borrowed(&[4, 5]),
        start_op: 1,
    }
}

#[test]
fn a_change_is_built_of_operations() {
    let names = actors(&[10, 20, 30]);
    let ops = [put(op_id(8, 1), ObjId(op_id(2, 2)), vec![op_id(3, 2), op_id(4, 1)])];
    let hashes = [ChangeHash([1; 32]), ChangeHash([2; 32])];
    let change = build_change(&ops, &metadata(1, vec![1, 0, 1]), &&hashes[..], &names);
    assert_eq!(*change.actor(), names[1]);
    assert_eq!(change.other_actors(), [names[2].clone()]);
    assert_eq!(change.dependencies(), [hashes[1], hashes[0], hashes[1]]);
    assert_eq!(change.seq(), 3);
    assert_eq!(change.start_op(), 8);
    assert_eq!(change.timestamp(), 12);
    assert_eq!(change.message(), Some("built"));
    assert_eq!(change.extra_bytes(), [4, 5]);
    assert_eq!(change.len(), 1);
    assert!(change.checksum_valid());
    let mut it = change.iter_ops();
    let op = it.next().unwrap();
    assert_eq!(op.id, op_id(8, 0));
    assert_eq!(op.obj, ObjId(op_id(2, 1)));
    assert_eq!(op.pred, vec![op_id(3, 1), op_id(4, 0)]);
    assert!(matches!(op.value, ScalarValue::Uint(9)));
    assert!(it.next().is_none());
    let loaded = Change::from_bytes(change.bytes().to_vec()).unwrap();
    assert_eq!(loaded.raw_bytes(), change.bytes());
    assert_eq!(loaded.len(), 1);
    assert_eq!(loaded.hash(), change.hash());
}

#[test]
fn a_change_without_operations_starts_behind_the_last() {
    let names = actors(&[10]);
    let hashes: [ChangeHash; 0] = [];
    let change = build_change(&[], &metadata(0, vec![]), &&hashes[..], &names);
    assert_eq!(change.start_op(), 8);
    assert_eq!(change.len(), 0);
    assert!(change.iter_ops().next().is_none());
}

#[test]
fn a_mapper_is_used_again() {
    let names = actors(&[10, 20, 30]);
    let hashes: [ChangeHash; 0] = [];
    let mut mapper = ActorMapper::new(&names);
    let ops = [put(op_id(8, 1), ObjId(op_id(2, 2)), vec![])];
    let first = build_change_inner(&ops, &metadata(1, vec![]), &&hashes[..], &mut mapper);
    assert_eq!(first.other_actors(), [names[2].clone()]);
    let none = build_change_inner(&[], &metadata(1, vec![]), &&hashes[..], &mut mapper);
    assert_eq!(none.other_actors(), [names[2].clone()]);
    let ops = [put(op_id(8, 2), ObjId(op_id(2, 0)), vec![op_id(1, 1), op_id(1, 2)])];
    let next = build_change_inner(&ops, &metadata(2, vec![]), &&hashes[..], &mut mapper);
    assert_eq!(next.other_actors(), [names[0].clone(), names[1].clone()]);
    assert_eq!(mapper.iter(), vec![names[0].clone(), names[1].clone()]);
    assert_eq!(next, build_change(&ops, &metadata(2, vec![]), &&hashes[..], &names));
}

#[test]
fn the_actors_that_were_seen() {
    let names = actors(&[1, 2, 3, 4]);
    let mut mapper = ActorMapper::new(&names);
    assert_eq!(mapper.iter(), vec![]);
    mapper.process_actor(3);
    mapper.process_actor(1);
    mapper.build_mapping(None);
    assert_eq!(mapper.iter(), vec![names[1].clone(), names[3].clone()]);
    let mut mapper = ActorMapper::new(&names);
    mapper.process_op(&put(op_id(1, 0), ObjId(op_id(1, 3)), vec![op_id(1, 1), op_id(1, 2)]));
    mapper.build_mapping(Some(1));
    assert_eq!(mapper.iter(), vec![names[2].clone(), names[3].clone()]);
    assert_eq!(ActorMapper::new(&names), ActorMapper::new(&names));
    assert_ne!(mapper, ActorMapper::new(&names));
}

#[test]
fn the_hashes_of_changes() {
    let hashes = [ChangeHash([1; 32]), ChangeHash([2; 32])];
    let list = &hashes[..];
    assert_eq!(list.get_hash(1), Some(hashes[1]));
    assert_eq!(list.get_hash(2), None);
    let names = actors(&[10]);
    let none: [ChangeHash; 0] = [];
    let change = build_change(&[], &metadata(0, vec![]), &&none[..], &names);
    let hash = change.hash();
    let changes = vec![Change::from(change)];
    assert_eq!(changes.get_hash(0), Some(hash));
    assert_eq!(changes.get_hash(1), None);
    let next = build_change(&[], &metadata(0, vec![0]), &changes, &names);
    assert_eq!(next.dependencies(), [hash]);
}

fn specs(cols: &ChangeOpsColumns) -> Vec<(u32, usize)> {
    let list = cols.to_raw_columns();
    list.0.iter().map(|c| (c.spec().0, c.data().len())).collect()
}

#[test]
fn the_list_of_columns() {
    assert_eq!(
        specs(&ChangeOpsColumns::default()),
        vec![(1, 0), (2, 0), (17, 0), (19, 0), (21, 0), (52, 0), (66, 0), (86, 0), (112, 0)]
    );
    let cols = ChangeOpsColumns {
        obj_actor: 0..1,
        obj_ctr: 1..3,
        key_actor: 3..6,
        key_ctr: 6..10,
        key_str: 10..15,
        insert: 15..21,
        action: 21..28,
        value_meta: 28..36,
        value: 36..45,
        pred_count: 45..55,
        pred_actor: 55..66,
        pred_ctr: 66..78,
        expand: 78..91,
        mark_name: 91..105,
    };
    let all = vec![
        (1, 1),
        (2, 2),
        (17, 3),
        (19, 4),
        (21, 5),
        (52, 6),
        (66, 7),
        (86, 8),
        (87, 9),
        (112, 10),
        (113, 11),
        (115, 12),
        (148, 13),
        (165, 14),
    ];
    assert_eq!(specs(&cols), all);
    assert_eq!(cols.clone(), cols);
    let mut some = cols.clone();
    some.pred_actor = 55..55;
    some.expand = 78..78;
    assert_eq!(specs(&some).len(), 11);
    assert_ne!(some, cols);
}

#[test]
fn columns_are_appended() {
    let names = actors(&[10, 20]);
    let mut mapper = ActorMapper::new(&names);
    let mut data = vec![9];
    let cols = write_change_ops(&[], 0, &mut data, &mut mapper);
    assert_eq!(cols, ChangeOpsColumns::default());
    assert_eq!(data, vec![9]);
    let ops = [
        put(op_id(1, 0), ObjId::root(), vec![op_id(5, 1)]),
        put(op_id(2, 0), ObjId::root(), vec![op_id(5, 0), op_id(6, 1)]),
    ];
    let cols = write_change_ops(&ops, 0, &mut data, &mut mapper);
    let bytes = |r: &std::ops::Range<usize>| data[r.clone()].to_vec();
    assert_eq!(cols.obj_actor, 1..1);
    assert_eq!(cols.key_ctr, 1..1);
    assert_eq!(bytes(&cols.key_str), vec![2, 1, b'k']);
    assert_eq!(bytes(&cols.insert), vec![2]);
    assert_eq!(bytes(&cols.action), vec![2, 1]);
    assert_eq!(bytes(&cols.value_meta), vec![2, 0x13]);
    assert_eq!(bytes(&cols.value), vec![9, 9]);
    assert_eq!(bytes(&cols.pred_count), vec![0x7e, 1, 2]);
    assert_eq!(bytes(&cols.pred_actor), vec![0x7d, 1, 0, 1]);
    assert_eq!(bytes(&cols.pred_ctr), vec![0x7d, 5, 0, 1]);
    assert!(cols.expand.is_empty() && cols.mark_name.is_empty());
    assert_eq!(cols.mark_name.end, data.len());
}

#[test]
fn columns_with_nothing_to_say_are_empty() {
    let names = actors(&[10, 20]);
    let empty = |op: OpBuilder| {
        let mut data = vec![];
        let mut mapper = ActorMapper::new(&names);
        let cols = write_change_ops(&[op], 0, &mut data, &mut mapper);
        let always = [&cols.insert, &cols.action, &cols.value_meta, &cols.pred_count];
        assert!(always.iter().all(|r| !r.is_empty()));
        let some = [
            cols.obj_actor,
            cols.obj_ctr,
            cols.key_actor,
            cols.key_ctr,
            cols.key_str,
            cols.expand,
            cols.mark_name,
            cols.pred_actor,
            cols.pred_ctr,
        ];
        some.map(|r| r.is_empty())
    };
    let plain = || put(op_id(1, 0), ObjId::root(), vec![]);
    assert_eq!(empty(plain()), [true, true, true, true, false, true, true, true, true]);
    let mut op = put(op_id(1, 0), ObjId(op_id(0, 1)), vec![op_id(4, 1)]);
    op.key = KeyRef::Elem(ElemId::head());
    assert_eq!(empty(op), [false, false, true, false, true, true, true, false, false]);
    let mut op = plain();
    op.key = KeyRef::Elem(ElemId(op_id(3, 1)));
    op.expand = true;
    op.mark_name = Some("bold".to_string());
    assert_eq!(empty(op), [true, true, false, false, true, false, false, true, true]);
}

#[test]
fn small_parts() {
    assert_eq!(shift_range(2..5, 10), 12..15);
    let mut out = vec![7];
    assert_eq!(length_prefixed_bytes(b"abc", &mut out), 4);
    assert_eq!(out, vec![7, 3, b'a', b'b', b'c']);
    let long = vec![0; 200];
    assert_eq!(length_prefixed_bytes(&long, &mut out), 202);
    assert_eq!(out[5..7], [0xc8, 1]);
    let mut meta = metadata(0, vec![]);
    assert_eq!(meta.message_str(), "built");
    meta.message = None;
    assert_eq!(meta.message_str(), "");
}

#[test]
fn operations_compare_by_their_ids() {
    let op = |counter, actor| put(op_id(counter, actor), ObjId::root(), vec![]);
    let other = put(op_id(1, 2), ObjId(op_id(5, 5)), vec![op_id(1, 1)]);
    assert!(op(1, 2) == other);
    assert!(op(1, 2) != op(1, 3));
    assert_eq!(op(1, 9).partial_cmp(&op(2, 0)), Some(Ordering::Less));
    assert_eq!(op(2, 0).partial_cmp(&op(1, 9)), Some(Ordering::Greater));
    assert_eq!(op(1, 0).partial_cmp(&op(1, 9)), Some(Ordering::Less));
    assert_eq!(op(1, 9).partial_cmp(&op(1, 0)), Some(Ordering::Greater));
    assert_eq!(op(1, 2).partial_cmp(&other), Some(Ordering::Equal));
}

#[test]
fn the_parts_of_an_operation() {
    let mut op = put(op_id(1, 0), ObjId::root(), vec![]);
    assert_eq!((op.obj_actor(), op.obj_ctr()), (None, None));
    assert_eq!((op.key_actor(), op.key_ctr()), (None, None));
    assert_eq!(op.key_str(), Some("k".to_string()));
    assert_eq!(op.value_meta(), 0x13);
    op.obj = ObjId(op_id(4, 2));
    op.key = KeyRef::Elem(ElemId(op_id(6, 3)));
    assert_eq!((op.obj_actor(), op.obj_ctr()), (Some(2), Some(4)));
    assert_eq!((op.key_actor(), op.key_ctr()), (Some(3), Some(6)));
    assert_eq!(op.key_str(), None);
    op.key = KeyRef::Elem(ElemId::head());
    assert_eq!((op.key_actor(), op.key_ctr()), (None, Some(0)));
}

#[test]
fn ids() {
    assert_eq!(OpId::new(5, 6), op_id(5, 6));
    assert_eq!(OpId::try_new(1 << 32, 0), Err(OpIdTooLarge));
    assert_eq!(OpId::try_new(0, 1 << 32), Err(OpIdTooLarge));
    assert_eq!(OpId::try_new(5, 6), Ok(op_id(5, 6)));
    assert_eq!((op_id(5, 6).counter(), op_id(5, 6).icounter(), op_id(5, 6).actor()), (5, 5, 6));
    assert!(ObjId::root().is_root());
    assert_eq!(ObjId::root().id(), None);
    assert!(!ObjId(op_id(0, 1)).is_root());
    assert_eq!(ObjId(op_id(0, 1)).id(), Some(&op_id(0, 1)));
    assert!(ElemId::head().is_head());
    assert!(!ElemId(op_id(1, 0)).is_head());
}

#[test]
fn operations_and_their_parts() {
    let make = |action, value, expand, name: Option<&str>| {
        legacy::OpType::from_parts(OpTypeParts {
            action,
            value,
            expand,
            mark_name: name.map(|n| n.to_string()),
        })
    };
    let null = || ScalarValue::Null;
    let all = [
        make(Action::MakeMap, null(), false, None),
        make(Action::Put, ScalarValue::Int(1), false, None),
        make(Action::MakeList, null(), false, None),
        make(Action::Delete, null(), false, None),
        make(Action::MakeText, null(), false, None),
        make(Action::Increment, ScalarValue::Int(-2), false, None),
        make(Action::MakeTable, null(), false, None),
        make(Action::Mark, ScalarValue::Int(3), true, Some("em")),
        make(Action::Mark, null(), true, None),
    ];
    let shown: Vec<String> = all.iter().map(|t| format!("{:?}", t)).collect();
    assert_eq!(
        shown,
        vec![
            "Make(Mapping)",
            "Put(Int(1))",
            "Make(List)",
            "Delete",
            "Make(Text)",
            "Increment(-2)",
            "Make(Table)",
            "MarkBegin(MarkData { name: \"em\", value: Int(3), expand: true })",
            "MarkEnd(true)",
        ]
    );
    for (index, t) in all.iter().enumerate() {
        assert_eq!(t.action_index(), index.min(7) as u64);
        assert_eq!(t.expand(), index >= 7);
        assert_eq!(t.mark_name(), if index == 7 { Some("em".to_string()) } else { None });
    }
    let wrapped = make(Action::Increment, ScalarValue::Uint(u64::MAX), false, None);
    assert!(matches!(wrapped, legacy::OpType::Increment(-1)));
}
