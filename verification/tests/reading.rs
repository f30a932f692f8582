//! Cells, rows and values.
use automerge::columnar::encoding::cells::{BoolColumn, DeltaColumn, TextColumn, UintColumn};
use automerge::op_set2::meta::{ValueMeta, ValueType};
use automerge::op_set2::types::{Action, KeyRef, ReadScalarError, ScalarValue};
use automerge::storage::change::iter::{
    decide_action, decide_actor, decide_key, decide_obj, decide_pred, decide_value, try_op_id,
    ChangeOpIter, ChangeOpIterUnverified,
};
use automerge::storage::change::ParseError;
use automerge::storage::columns::{ColumnSpec, RawColumn, RawColumns};
use automerge::types::{ElemId, ObjId, OpId};
use automerge::{DecodeColumnError, ReadChangeOpError};

fn message<T: std::fmt::Debug>(r: Result<T, ReadChangeOpError>) -> String {
    match r {
        Err(ReadChangeOpError::DecodeError(e)) => e.message(),
        other => panic!("{:?}", other),
    }
}

fn too_large<T>(r: Result<T, ReadChangeOpError>) -> bool {
    matches!(r, Err(ReadChangeOpError::CounterTooLarge))
}

fn op_id(counter: u32, actor: u32) -> OpId {
    OpId { counter, actor }
}

fn uints(bytes: &[u8]) -> (Vec<Option<u64>>, Option<String>) {
    let mut column = UintColumn::new(bytes);
    let mut out = vec![];
    loop {
        match column.pull("c") {
            Ok(Some(cell)) => out.push(cell),
            Ok(None) => return (out, None),
            Err(e) => return (out, Some(e.message())),
        }
    }
}

fn deltas(bytes: &[u8]) -> (Vec<Option<i64>>, bool) {
    let mut column = DeltaColumn::new(bytes);
    let mut out = vec![];
    loop {
        match column.pull("c") {
            Ok(Some(cell)) => out.push(cell),
            Ok(None) => return (out, true),
            Err(_) => return (out, false),
        }
    }
}

fn texts(bytes: &[u8]) -> (Vec<Option<String>>, bool) {
    let mut column = TextColumn::new(bytes);
    let mut out = vec![];
    loop {
        match column.pull("c") {
            Ok(Some(cell)) => out.push(cell),
            Ok(None) => return (out, true),
            Err(_) => return (out, false),
        }
    }
}

fn bools(bytes: &[u8]) -> (Vec<bool>, bool) {
    let mut column = BoolColumn::new(bytes);
    let mut out = vec![];
    loop {
        match column.pull("c") {
            Ok(Some(cell)) => out.push(cell),
            Ok(None) => return (out, true),
            Err(_) => return (out, false),
        }
    }
}

const CUT: &str = "invalid value in column c: failed to fill whole buffer";
const TOO_LARGE: &str =
    "invalid value in column c: The number being read is larger than can be represented";

#[test]
fn columns_of_unsigned_integers() {
    assert_eq!(uints(&[]), (vec![], None));
    assert_eq!(
        uints(&[2, 7, 0, 1, 0x7e, 1, 0xac, 2]),
        (vec![Some(7), Some(7), None, Some(1), Some(300)], None)
    );
    assert_eq!(uints(&[0, 0, 1, 5]), (vec![Some(5)], None));
    let cut = Some(CUT.to_string());
    let too_large = Some(TOO_LARGE.to_string());
    assert_eq!(uints(&[1, 5, 0x7f]), (vec![Some(5)], cut.clone()));
    assert_eq!(uints(&[0x7e, 1]), (vec![Some(1)], cut.clone()));
    assert_eq!(uints(&[0x7e, 5, 0x80]), (vec![Some(5)], cut.clone()));
    assert_eq!(uints(&[1, 4, 0x7d, 5, 0xac, 2, 0x80]), (vec![Some(4), Some(5), Some(300)], cut.clone()));
    assert_eq!(uints(&[0x80]), (vec![], cut.clone()));
    assert_eq!(uints(&[0]), (vec![], cut));
    let eleven = [0x80, 0x80, 0x80, 0x80, 0x80, 0x80, 0x80, 0x80, 0x80, 0x80, 0];
    assert_eq!(uints(&eleven), (vec![], too_large.clone()));
    assert_eq!(uints(&[&[0], &eleven[..]].concat()), (vec![], too_large.clone()));
    assert_eq!(uints(&[&[0x7e, 3], &eleven[..]].concat()), (vec![Some(3)], too_large));
}

#[test]
fn a_malformed_column_stays_malformed() {
    let mut column = UintColumn::new(&[0x7f]);
    assert!(column.pull("a").is_err());
    assert_eq!(
        column.pull("b").unwrap_err().message(),
        "invalid value in column b: failed to fill whole buffer"
    );
    let mut column = UintColumn::new(&[1, 5]);
    assert_eq!(column.pull("a").unwrap(), Some(Some(5)));
    assert_eq!(column.pull("a").unwrap(), None);
    assert_eq!(column.pull("a").unwrap(), None);
}

#[test]
fn a_column_is_read_up_to_where_it_is_malformed() {
    let most = [0xff, 0xff, 0xff, 0xff, 0xff, 0xff, 0xff, 0xff, 0xff, 0x00];
    let mut bytes = most.to_vec();
    bytes.extend([0xff, 0xff, 0xff, 0xff, 0x0f]);
    let mut column = UintColumn::new(&bytes);
    for _ in 0..3 {
        assert_eq!(column.pull("a").unwrap(), Some(Some(0xffff_ffff)));
    }
    let mut bytes = vec![0x7e];
    bytes.extend(most);
    bytes.push(1);
    assert_eq!(deltas(&bytes), (vec![Some(i64::MAX)], false));
    let mut bytes = vec![1, 10];
    bytes.extend(most);
    bytes.push(2);
    let mut column = DeltaColumn::new(&bytes);
    for counter in [10, 12, 14, 16] {
        assert_eq!(column.pull("a").unwrap(), Some(Some(counter)));
    }
    let mut bytes = vec![1, 10, 3];
    bytes.extend([0x80, 0x80, 0x80, 0x80, 0x80, 0x80, 0x80, 0x80, 0x20]);
    let step = 1i64 << 61;
    let counters = vec![Some(10), Some(10 + step), Some(10 + 2 * step), Some(10 + 3 * step)];
    assert_eq!(deltas(&bytes), (counters.clone(), true));
    bytes[2] = 4;
    assert_eq!(deltas(&bytes), (counters, false));
    let mut bytes = vec![1, 5, 0];
    bytes.extend([0xff, 0xff, 0xff, 0xff, 0xff, 0xff, 0xff, 0xff, 0xff, 0x01]);
    let mut column = UintColumn::new(&bytes);
    for cell in [Some(5), None, None] {
        assert_eq!(column.pull("a").unwrap(), Some(cell));
    }
    let mut bytes = vec![1];
    bytes.extend([0xff, 0xff, 0xff, 0xff, 0xff, 0xff, 0xff, 0xff, 0xff, 0x01]);
    let mut column = BoolColumn::new(&bytes);
    for cell in [false, true, true] {
        assert_eq!(column.pull("a").unwrap(), Some(cell));
    }
}

#[test]
fn columns_of_counters() {
    assert_eq!(deltas(&[]), (vec![], true));
    assert_eq!(
        deltas(&[3, 1, 0, 2, 0x7e, 0x7e, 10]),
        (vec![Some(1), Some(2), Some(3), None, None, Some(1), Some(11)], true)
    );
    assert_eq!(deltas(&[2, 1, 0x7f]), (vec![Some(1), Some(2)], false));
    assert_eq!(deltas(&[2, 1, 0x7d, 5, 0x7f, 0x80]), (vec![Some(1), Some(2), Some(7), Some(6)], false));
}

#[test]
fn columns_of_texts() {
    let text = |s: &str| Some(s.to_string());
    assert_eq!(
        texts(&[2, 1, b'a', 0, 1, 0x7e, 0, 2, 0xc3, 0xa9]),
        (vec![text("a"), text("a"), None, text(""), text("\u{e9}")], true)
    );
    assert_eq!(texts(&[1, 1, b'a', 1, 1, 0xff]), (vec![text("a")], false));
    assert_eq!(texts(&[1, 2, b'a']), (vec![], false));
    assert_eq!(texts(&[0x7d, 1, b'a', 0, 9, b'b']), (vec![text("a"), text("")], false));
    assert_eq!(texts(&[0x7e, 2, 0xc3, 0xa9, 1, 0xff]), (vec![text("\u{e9}")], false));
}

#[test]
fn what_is_wrong_with_a_column() {
    let text = |bytes: &[u8]| {
        let mut column = TextColumn::new(bytes);
        column.pull("c").unwrap_err().message()
    };
    assert_eq!(text(&[1, 1, 0xff]), "invalid value in column c: invalid utf8");
    assert_eq!(text(&[1, 0x80]), CUT);
    assert_eq!(text(&[1, 2, b'a']), "invalid value in column c: malformed column data");
    let mut column = DeltaColumn::new(&[1, 0x80]);
    assert_eq!(column.pull("c").unwrap_err().message(), CUT);
    let mut column = BoolColumn::new(&[0x80]);
    assert_eq!(column.pull("c").unwrap_err().message(), CUT);
    let mut bytes = vec![0x7e];
    bytes.extend([0xff, 0xff, 0xff, 0xff, 0xff, 0xff, 0xff, 0xff, 0xff, 0x00]);
    bytes.push(1);
    let mut column = DeltaColumn::new(&bytes);
    column.pull("c").unwrap();
    assert_eq!(
        column.pull("c").unwrap_err().message(),
        "invalid value in column c: malformed column data"
    );
}

#[test]
fn columns_of_booleans() {
    assert_eq!(bools(&[]), (vec![], true));
    assert_eq!(bools(&[0]), (vec![], true));
    assert_eq!(bools(&[0, 2, 1]), (vec![true, true, false], true));
    assert_eq!(bools(&[1, 0x80]), (vec![false], false));
}

#[test]
fn messages() {
    assert_eq!(
        DecodeColumnError::unexpected_null("action").message(),
        "unexpected null in column action"
    );
    let e = DecodeColumnError::invalid_value("value", "bad leb");
    assert_eq!(e.message(), "invalid value in column value: bad leb");
    assert_eq!(e.clone().message(), e.message());
}

#[test]
fn the_id_of_an_operation() {
    assert_eq!(try_op_id(0xffff_ffff, 3).unwrap(), op_id(0xffff_ffff, 3));
    assert!(too_large(try_op_id(1 << 32, 3)));
}

#[test]
fn the_action_of_a_row() {
    let actions = [
        Action::MakeMap,
        Action::Put,
        Action::MakeList,
        Action::Delete,
        Action::MakeText,
        Action::Increment,
        Action::MakeTable,
        Action::Mark,
    ];
    for (code, action) in actions.into_iter().enumerate() {
        assert_eq!(decide_action(Some(code as u64)).unwrap(), action);
        assert_eq!(action.code(), code as u64);
    }
    assert_eq!(message(decide_action(None)), "unexpected null in column action");
    assert_eq!(message(decide_action(Some(8))), "invalid value in column action: unknown action");
}

#[test]
fn the_actor_of_a_row() {
    assert_eq!(decide_actor(None, "c").unwrap(), None);
    assert_eq!(decide_actor(Some(0xffff_ffff), "c").unwrap(), Some(0xffff_ffff));
    assert_eq!(
        message(decide_actor(Some(1 << 32), "c")),
        "invalid value in column c: actor index too large"
    );
}

#[test]
fn the_object_of_a_row() {
    assert_eq!(decide_obj(None, None).unwrap(), ObjId::root());
    assert_eq!(decide_obj(None, Some(0)).unwrap(), ObjId::root());
    assert_eq!(decide_obj(Some(4), Some(0)).unwrap(), ObjId::root());
    assert_eq!(decide_obj(Some(4), Some(2)).unwrap(), ObjId(op_id(2, 4)));
    assert!(too_large(decide_obj(Some(4), Some(1 << 32))));
    assert_eq!(message(decide_obj(None, Some(2))), "unexpected null in column obj_actor");
    assert_eq!(message(decide_obj(Some(4), None)), "unexpected null in column obj_ctr");
}

#[test]
fn the_key_of_a_row() {
    let text = || Some("k".to_string());
    assert!(matches!(decide_key(None, None, text()).unwrap(), KeyRef::Prop(s) if s == "k"));
    assert!(matches!(decide_key(None, Some(0), None).unwrap(), KeyRef::Elem(e) if e.is_head()));
    assert!(matches!(
        decide_key(Some(2), Some(5), None).unwrap(),
        KeyRef::Elem(e) if e == ElemId(op_id(5, 2))
    ));
    assert!(too_large(decide_key(Some(2), Some(-1), None)));
    assert!(too_large(decide_key(Some(2), Some(1 << 32), None)));
    let wrong = "invalid value in column key: ambiguous or incomplete key columns";
    assert_eq!(message(decide_key(None, None, None)), wrong);
    assert_eq!(message(decide_key(None, Some(1), None)), wrong);
    assert_eq!(message(decide_key(Some(2), None, None)), wrong);
    assert_eq!(message(decide_key(Some(2), None, text())), wrong);
    assert_eq!(message(decide_key(None, Some(0), text())), wrong);
    assert_eq!(message(decide_key(Some(2), Some(5), text())), wrong);
}

#[test]
fn a_predecessor_of_a_row() {
    assert_eq!(decide_pred(Some(1), Some(9)).unwrap(), op_id(9, 1));
    assert!(too_large(decide_pred(Some(1), Some(-9))));
    for (actor, ctr) in [(None, None), (Some(1), None), (None, Some(9))] {
        assert_eq!(message(decide_pred(actor, ctr)), "unexpected null in column pred");
    }
}

#[test]
fn the_value_of_a_row() {
    let value = |code: u64, raw: &[u8]| decide_value(16 * raw.len() as u64 + code, raw);
    let ok = |code: u64, raw: &[u8]| format!("{:?}", value(code, raw).unwrap());
    assert_eq!(ok(0, &[]), "Null");
    assert_eq!(ok(1, &[]), "Boolean(false)");
    assert_eq!(ok(2, &[]), "Boolean(true)");
    assert_eq!(ok(3, &[0xac, 2]), "Uint(300)");
    assert_eq!(ok(4, &[0x7d]), "Int(-3)");
    assert_eq!(ok(5, &1.5f64.to_le_bytes()), format!("F64({})", 1.5f64.to_bits()));
    assert_eq!(ok(6, b"hi"), "Str(\"hi\")");
    assert_eq!(ok(7, &[1, 2]), "Bytes([1, 2])");
    assert_eq!(ok(8, &[5]), "Counter(5)");
    assert_eq!(ok(9, &[6]), "Timestamp(6)");
    assert_eq!(ok(12, &[6]), "Unknown { type_code: 12, bytes: [6] }");
    let wrong = |code: u64, raw: &[u8]| message(value(code, raw));
    assert_eq!(wrong(3, &[0x80]), "invalid value in column value: bad uleb");
    assert_eq!(wrong(3, &[1, 1]), "invalid value in column value: extra bytes");
    for code in [4, 8, 9] {
        assert_eq!(wrong(code, &[]), "invalid value in column value: bad leb");
        assert_eq!(wrong(code, &[1, 1]), "invalid value in column value: extra bytes");
    }
    assert_eq!(wrong(5, &[0; 7]), "invalid value in column value: invalid float");
    assert_eq!(wrong(6, &[0xff]), "invalid value in column value: invalid utf8");
}

#[test]
fn padded_numbers_are_read() {
    assert!(matches!(decide_value(0x23, &[0x85, 0x00]).unwrap(), ScalarValue::Uint(5)));
    assert!(matches!(decide_value(0x24, &[0xff, 0x7f]).unwrap(), ScalarValue::Int(-1)));
    let most = [0xff, 0xff, 0xff, 0xff, 0xff, 0xff, 0xff, 0xff, 0xff, 0x01];
    assert!(matches!(decide_value(0xa3, &most).unwrap(), ScalarValue::Uint(u64::MAX)));
    let more = [0xff, 0xff, 0xff, 0xff, 0xff, 0xff, 0xff, 0xff, 0xff, 0x02];
    assert!(decide_value(0xa3, &more).is_err());
    let least = [0x80, 0x80, 0x80, 0x80, 0x80, 0x80, 0x80, 0x80, 0x80, 0x7f];
    assert!(matches!(decide_value(0xa4, &least).unwrap(), ScalarValue::Int(i64::MIN)));
}

#[test]
fn a_value_is_read_back() {
    let values = [
        ScalarValue::Null,
        ScalarValue::Boolean(true),
        ScalarValue::Uint(1 << 63),
        ScalarValue::Int(-1 << 63),
        ScalarValue::F64(f64::NAN.to_bits()),
        ScalarValue::Str("text".to_string()),
        ScalarValue::Bytes(vec![9]),
        ScalarValue::Counter(64),
        ScalarValue::Timestamp(-65),
        ScalarValue::Unknown { type_code: 10, bytes: vec![1, 2] },
    ];
    for value in &values {
        let mut raw = vec![];
        value.write_raw(&mut raw);
        let meta = ValueMeta::new(value.value_type(), raw.len() as u64);
        let read = ScalarValue::from_raw(meta, &raw).unwrap();
        assert_eq!(format!("{:?}", read), format!("{:?}", value));
        assert_eq!(format!("{:?}", value.clone()), format!("{:?}", value));
    }
    let mut raw = vec![];
    ScalarValue::Int(-65).write_raw(&mut raw);
    assert_eq!(raw, vec![0xbf, 0x7f]);
}

#[test]
fn values_that_cannot_be_read() {
    let read = |ty: ValueType, raw: &[u8]| {
        ScalarValue::from_raw(ValueMeta::new(ty, raw.len() as u64), raw).unwrap_err()
    };
    assert_eq!(read(ValueType::Uleb, &[]), ReadScalarError::InvalidLeb);
    assert_eq!(read(ValueType::Leb, &[0x80]), ReadScalarError::InvalidLeb);
    assert_eq!(read(ValueType::Counter, &[]), ReadScalarError::InvalidLeb);
    assert_eq!(read(ValueType::Timestamp, &[]), ReadScalarError::InvalidLeb);
    assert_eq!(read(ValueType::Float, &[0; 9]), ReadScalarError::InvalidFloat);
    assert_eq!(read(ValueType::String, &[0xc3]), ReadScalarError::InvalidUtf8);
}

#[test]
fn the_metadata_of_a_value() {
    let meta = ValueMeta::new(ValueType::String, 6);
    assert_eq!(meta.0, 102);
    assert_eq!(meta.type_code(), ValueType::String);
    assert_eq!(meta.length(), 6);
    assert_eq!(ValueMeta(0xff).type_code(), ValueType::Unknown(15));
    assert_eq!(ValueMeta(0xff).length(), 15);
    for code in 0..16 {
        assert_eq!(ValueType::from_code(code).code(), code);
    }
}

fn columns(list: &[(u32, usize)]) -> RawColumns {
    let mut start = 0;
    let mut cols = vec![];
    for (spec, len) in list {
        cols.push(RawColumn::new(ColumnSpec(*spec), start..start + len));
        start += len;
    }
    RawColumns(cols)
}

#[test]
fn rows_are_read_until_the_actions_end() {
    let data = [2, 1, b'k', 2, 1, 2, 0];
    let cols = columns(&[(0x15, 3), (0x42, 2), (0x56, 2)]);
    let mut it = ChangeOpIterUnverified::try_new(&cols, &data, 5).unwrap();
    for counter in [5, 6] {
        let op = it.next().unwrap().unwrap();
        assert_eq!(op.id, op_id(counter, 0));
        assert_eq!(op.obj, ObjId::root());
        assert_eq!(op.action, Action::Put);
        assert!(matches!(op.key, KeyRef::Prop(s) if s == "k"));
        assert!(matches!(op.value, ScalarValue::Null));
        assert!(!op.insert && !op.expand && op.mark_name.is_none() && op.pred.is_empty());
    }
    assert!(it.next().is_none());
    assert!(it.next().is_none());
    let mut it = ChangeOpIter::new(&cols, &data, 5);
    assert!(it.next().is_some() && it.next().is_some() && it.next().is_none());
}

#[test]
fn a_copy_of_a_reader_reads_on_by_itself() {
    let data = [0x7e, 1, b'a', 1, b'b', 2, 1, 2, 0];
    let cols = columns(&[(0x15, 5), (0x42, 2), (0x56, 2)]);
    let mut it = ChangeOpIterUnverified::new(&cols, &data, 5);
    it.next().unwrap().unwrap();
    let mut copy = it.clone();
    for _ in 0..2 {
        let op = copy.next().unwrap().unwrap();
        assert_eq!(op.id, op_id(6, 0));
        assert!(matches!(op.key, KeyRef::Prop(s) if s == "b"));
        assert!(copy.next().is_none());
        copy = it.clone();
    }
    let mut it = ChangeOpIter::new(&cols, &data, 5);
    let mut copy = it.clone();
    assert!(it.next().is_some() && it.next().is_some() && it.next().is_none());
    assert_eq!(copy.next().unwrap().id, op_id(5, 0));
}

#[test]
fn a_row_that_cannot_be_read_takes_no_id() {
    let data = [2, 1, b'k', 0x7e, 9, 1, 2, 0];
    let cols = columns(&[(0x15, 3), (0x42, 3), (0x56, 2)]);
    let mut it = ChangeOpIterUnverified::new(&cols, &data, 5);
    assert!(it.next().unwrap().is_err());
    assert_eq!(it.next().unwrap().unwrap().id, op_id(5, 0));
    assert!(it.next().is_none());
}

#[test]
fn the_later_of_two_columns_counts() {
    let data = [1, 1, b'a', 1, 1, b'b', 1, 1, 1, 0];
    let cols = columns(&[(0x15, 3), (0x15, 3), (0x42, 2), (0x56, 2)]);
    let mut it = ChangeOpIterUnverified::new(&cols, &data, 1);
    assert!(matches!(it.next().unwrap().unwrap().key, KeyRef::Prop(s) if s == "b"));
}

#[test]
fn a_column_that_operations_do_not_have() {
    let cols = columns(&[(0x42, 2), (0x43, 0)]);
    let data = [1, 1];
    let r = ChangeOpIterUnverified::try_new(&cols, &data, 1);
    assert_eq!(r.err(), Some(ParseError::InvalidOpColumn(0x43)));
    assert!(ChangeOpIterUnverified::new(&cols, &data, 1).next().is_none());
}
