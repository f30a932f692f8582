//! Actions, keys and values of operations.
use super::meta::{ValueMeta, ValueType};
use crate::leb;
use crate::text;
use crate::types::{copy_bytes, ElemId};
use vstd::prelude::*;

verus! {

/// What an operation does.
#[derive(Clone, Copy, Debug, PartialEq, Eq, Structural)]
pub enum Action {
    MakeMap,
    Put,
    MakeList,
    Delete,
    MakeText,
    Increment,
    MakeTable,
    Mark,
}

impl Action {
    /// The number that stands for the action.
    pub open spec fn spec_code(self) -> u64 {
        match self {
            Action::MakeMap => 0,
            Action::Put => 1,
            Action::MakeList => 2,
            Action::Delete => 3,
            Action::MakeText => 4,
            Action::Increment => 5,
            Action::MakeTable => 6,
            Action::Mark => 7,
        }
    }

    /// The action that a number stands for.
    pub open spec fn of_code(code: u64) -> Option<Action> {
        if code == 0 {
            Some(Action::MakeMap)
        } else if code == 1 {
            Some(Action::Put)
        } else if code == 2 {
            Some(Action::MakeList)
        } else if code == 3 {
            Some(Action::Delete)
        } else if code == 4 {
            Some(Action::MakeText)
        } else if code == 5 {
            Some(Action::Increment)
        } else if code == 6 {
            Some(Action::MakeTable)
        } else if code == 7 {
            Some(Action::Mark)
        } else {
            None
        }
    }

    pub fn code(self) -> (r: u64)
        ensures
            r == self.spec_code(),
            Action::of_code(r) == Some(self),
    {
        match self {
            Action::MakeMap => 0,
            Action::Put => 1,
            Action::MakeList => 2,
            Action::Delete => 3,
            Action::MakeText => 4,
            Action::Increment => 5,
            Action::MakeTable => 6,
            Action::Mark => 7,
        }
    }

    pub fn from_code(code: u64) -> (r: Option<Action>)
        ensures
            r == Action::of_code(code),
    {
        match code {
            0 => Some(Action::MakeMap),
            1 => Some(Action::Put),
            2 => Some(Action::MakeList),
            3 => Some(Action::Delete),
            4 => Some(Action::MakeText),
            5 => Some(Action::Increment),
            6 => Some(Action::MakeTable),
            7 => Some(Action::Mark),
            _ => None,
        }
    }
}

/// The index of an actor in a list of actors.
#[derive(Clone, Copy, Debug, PartialEq, Eq, Structural)]
pub struct ActorIdx(pub u32);

/// Where in an object an operation applies: at a key of a map or at an element
/// of a list.
#[derive(Debug)]
pub enum KeyRef {
    Prop(String),
    Elem(ElemId),
}

/// The model of a `KeyRef`.
pub enum KeyModel {
    Prop(Seq<char>),
    Elem(ElemId),
}

impl View for KeyRef {
    type V = KeyModel;

    open spec fn view(&self) -> KeyModel {
        match self {
            KeyRef::Prop(s) => KeyModel::Prop(s@),
            KeyRef::Elem(e) => KeyModel::Elem(*e),
        }
    }
}

/// A value that is no object. A float is kept as its 64 bits.
#[derive(Debug)]
pub enum ScalarValue {
    Null,
    Boolean(bool),
    Uint(u64),
    Int(i64),
    F64(u64),
    Str(String),
    Bytes(Vec<u8>),
    Counter(i64),
    Timestamp(i64),
    Unknown { type_code: u8, bytes: Vec<u8> },
}

/// The model of a `ScalarValue`.
pub enum ScalarModel {
    Null,
    Boolean(bool),
    Uint(u64),
    Int(i64),
    F64(u64),
    Str(Seq<char>),
    Bytes(Seq<u8>),
    Counter(i64),
    Timestamp(i64),
    Unknown { type_code: u8, bytes: Seq<u8> },
}

impl View for ScalarValue {
    type V = ScalarModel;

    open spec fn view(&self) -> ScalarModel {
        match self {
            ScalarValue::Null => ScalarModel::Null,
            ScalarValue::Boolean(b) => ScalarModel::Boolean(*b),
            ScalarValue::Uint(v) => ScalarModel::Uint(*v),
            ScalarValue::Int(v) => ScalarModel::Int(*v),
            ScalarValue::F64(v) => ScalarModel::F64(*v),
            ScalarValue::Str(s) => ScalarModel::Str(s@),
            ScalarValue::Bytes(b) => ScalarModel::Bytes(b@),
            ScalarValue::Counter(v) => ScalarModel::Counter(*v),
            ScalarValue::Timestamp(v) => ScalarModel::Timestamp(*v),
            ScalarValue::Unknown { type_code, bytes } => ScalarModel::Unknown {
                type_code: *type_code,
                bytes: bytes@,
            },
        }
    }
}

impl ScalarModel {
    /// The type of the value in a value column.
    pub open spec fn value_type(self) -> ValueType {
        match self {
            ScalarModel::Null => ValueType::Null,
            ScalarModel::Boolean(b) => if b {
                ValueType::True
            } else {
                ValueType::False
            },
            ScalarModel::Uint(_) => ValueType::Uleb,
            ScalarModel::Int(_) => ValueType::Leb,
            ScalarModel::F64(_) => ValueType::Float,
            ScalarModel::Str(_) => ValueType::String,
            ScalarModel::Bytes(_) => ValueType::Bytes,
            ScalarModel::Counter(_) => ValueType::Counter,
            ScalarModel::Timestamp(_) => ValueType::Timestamp,
            ScalarModel::Unknown { type_code, .. } => ValueType::Unknown(type_code),
        }
    }

    /// The bytes of the value in a value column.
    pub open spec fn raw(self) -> Seq<u8> {
        match self {
            ScalarModel::Null => Seq::empty(),
            ScalarModel::Boolean(_) => Seq::empty(),
            ScalarModel::Uint(v) => leb::uleb_bytes(v as nat),
            ScalarModel::Int(v) => leb::sleb_bytes(v as int),
            ScalarModel::F64(v) => vstd::bytes::spec_u64_to_le_bytes(v),
            ScalarModel::Str(s) => text::text_bytes(s),
            ScalarModel::Bytes(b) => b,
            ScalarModel::Counter(v) => leb::sleb_bytes(v as int),
            ScalarModel::Timestamp(v) => leb::sleb_bytes(v as int),
            ScalarModel::Unknown { bytes, .. } => bytes,
        }
    }

    /// The value can be written: its bytes can be counted in 60 bits, and its
    /// type fits in four.
    pub open spec fn writable(self) -> bool {
        &&& self.raw().len() < 0x1000_0000_0000_0000
        &&& self.value_type().spec_code() < 16
    }

    /// An unknown type is none of the known ones.
    pub open spec fn unambiguous(self) -> bool {
        self matches ScalarModel::Unknown { type_code, .. } ==> 10 <= type_code
    }
}

/// Why a value could not be read of its bytes.
#[derive(Clone, Copy, Debug, PartialEq, Eq, Structural)]
pub enum ReadScalarError {
    InvalidLeb,
    InvalidFloat,
    InvalidUtf8,
}

/// The value of type `ty` that `raw` holds. A number may be followed by other
/// bytes, and a value that has no bytes of its own by any.
pub open spec fn scalar_of(ty: ValueType, raw: Seq<u8>) -> Result<ScalarModel, ReadScalarError> {
    match ty {
        ValueType::Null => Ok(ScalarModel::Null),
        ValueType::False => Ok(ScalarModel::Boolean(false)),
        ValueType::True => Ok(ScalarModel::Boolean(true)),
        ValueType::Uleb => match leb::uleb_read(raw, 0) {
            Some((v, _)) => Ok(ScalarModel::Uint(v as u64)),
            None => Err(ReadScalarError::InvalidLeb),
        },
        ValueType::Leb => match leb::sleb_read(raw, 0) {
            Some((v, _)) => Ok(ScalarModel::Int(v as i64)),
            None => Err(ReadScalarError::InvalidLeb),
        },
        ValueType::Float => if raw.len() == 8 {
            Ok(ScalarModel::F64(vstd::bytes::spec_u64_from_le_bytes(raw)))
        } else {
            Err(ReadScalarError::InvalidFloat)
        },
        ValueType::String => match text::text_of(raw) {
            Some(s) => Ok(ScalarModel::Str(s)),
            None => Err(ReadScalarError::InvalidUtf8),
        },
        ValueType::Bytes => Ok(ScalarModel::Bytes(raw)),
        ValueType::Counter => match leb::sleb_read(raw, 0) {
            Some((v, _)) => Ok(ScalarModel::Counter(v as i64)),
            None => Err(ReadScalarError::InvalidLeb),
        },
        ValueType::Timestamp => match leb::sleb_read(raw, 0) {
            Some((v, _)) => Ok(ScalarModel::Timestamp(v as i64)),
            None => Err(ReadScalarError::InvalidLeb),
        },
        ValueType::Unknown(type_code) => Ok(ScalarModel::Unknown { type_code, bytes: raw }),
    }
}

/// A value is read back of the bytes it was written to.
pub proof fn scalar_read_of_write(v: ScalarModel)
    ensures
        scalar_of(v.value_type(), v.raw()) == Ok::<ScalarModel, ReadScalarError>(v),
        v.value_type() is Uleb ==> (leb::uleb_read(v.raw(), 0) matches Some((_, n)) && n
            == v.raw().len()),
        v.value_type().is_signed() ==> (leb::sleb_read(v.raw(), 0) matches Some((_, n)) && n
            == v.raw().len()),
{
    leb::lemma_leb_limits();
    match v {
        ScalarModel::Uint(n) => {
            leb::lemma_uleb_read_of_bytes(n as nat, Seq::empty(), 0);
            assert(leb::uleb_bytes(n as nat) + Seq::empty() =~= leb::uleb_bytes(n as nat));
        },
        ScalarModel::Int(n) => {
            leb::lemma_sleb_read_of_bytes(n as int, Seq::empty(), 0);
            assert(leb::sleb_bytes(n as int) + Seq::empty() =~= leb::sleb_bytes(n as int));
        },
        ScalarModel::Counter(n) => {
            leb::lemma_sleb_read_of_bytes(n as int, Seq::empty(), 0);
            assert(leb::sleb_bytes(n as int) + Seq::empty() =~= leb::sleb_bytes(n as int));
        },
        ScalarModel::Timestamp(n) => {
            leb::lemma_sleb_read_of_bytes(n as int, Seq::empty(), 0);
            assert(leb::sleb_bytes(n as int) + Seq::empty() =~= leb::sleb_bytes(n as int));
        },
        ScalarModel::F64(bits) => {
            vstd::bytes::lemma_auto_spec_u64_to_from_le_bytes();
        },
        ScalarModel::Str(s) => {
            text::lemma_text_of_text_bytes(s);
        },
        _ => {},
    }
}

impl ScalarValue {
    /// The type of the value in a value column.
    pub fn value_type(&self) -> (r: ValueType)
        ensures
            r == self@.value_type(),
    {
        match self {
            ScalarValue::Null => ValueType::Null,
            ScalarValue::Boolean(b) => if *b {
                ValueType::True
            } else {
                ValueType::False
            },
            ScalarValue::Uint(_) => ValueType::Uleb,
            ScalarValue::Int(_) => ValueType::Leb,
            ScalarValue::F64(_) => ValueType::Float,
            ScalarValue::Str(_) => ValueType::String,
            ScalarValue::Bytes(_) => ValueType::Bytes,
            ScalarValue::Counter(_) => ValueType::Counter,
            ScalarValue::Timestamp(_) => ValueType::Timestamp,
            ScalarValue::Unknown { type_code, .. } => ValueType::Unknown(*type_code),
        }
    }

    /// Appends the bytes of the value in a value column.
    pub fn write_raw(&self, out: &mut Vec<u8>)
        ensures
            final(out)@ == old(out)@ + self@.raw(),
    {
        let ghost before = out@;
        match self {
            ScalarValue::Null | ScalarValue::Boolean(_) => {
                assert(before + Seq::<u8>::empty() =~= before);
            },
            ScalarValue::Uint(v) => {
                leb::write_unsigned(out, *v);
            },
            ScalarValue::Int(v) => {
                leb::write_signed(out, *v);
            },
            ScalarValue::F64(v) => {
                let bytes = vstd::bytes::u64_to_le_bytes(*v);
                out.extend_from_slice(bytes.as_slice());
                assert(out@ =~= before + bytes@);
            },
            ScalarValue::Str(s) => {
                let bytes = s.as_str().as_bytes();
                out.extend_from_slice(bytes);
                assert(out@ =~= before + bytes@);
            },
            ScalarValue::Bytes(b) => {
                out.extend_from_slice(b.as_slice());
                assert(out@ =~= before + b@);
            },
            ScalarValue::Counter(v) => {
                leb::write_signed(out, *v);
            },
            ScalarValue::Timestamp(v) => {
                leb::write_signed(out, *v);
            },
            ScalarValue::Unknown { bytes, .. } => {
                out.extend_from_slice(bytes.as_slice());
                assert(out@ =~= before + bytes@);
            },
        }
    }

    /// Reads the value that `meta` describes of its bytes.
    pub fn from_raw(meta: ValueMeta, raw: &[u8]) -> (r: Result<ScalarValue, ReadScalarError>)
        ensures
            match r {
                Ok(v) => scalar_of(meta.spec_type(), raw@) == Ok::<ScalarModel, ReadScalarError>(
                    v@,
                ),
                Err(e) => scalar_of(meta.spec_type(), raw@) == Err::<ScalarModel, ReadScalarError>(
                    e,
                ),
            },
    {
        proof {
            leb::lemma_leb_limits();
            leb::lemma_uleb_read_bounds(raw@, 0);
            leb::lemma_sleb_read_bounds(raw@, 0);
        }
        match meta.type_code() {
            ValueType::Null => Ok(ScalarValue::Null),
            ValueType::False => Ok(ScalarValue::Boolean(false)),
            ValueType::True => Ok(ScalarValue::Boolean(true)),
            ValueType::Uleb => match leb::read_unsigned(raw) {
                Some((v, _)) => Ok(ScalarValue::Uint(v)),
                None => Err(ReadScalarError::InvalidLeb),
            },
            ValueType::Leb => match leb::read_signed(raw) {
                Some((v, _)) => Ok(ScalarValue::Int(v)),
                None => Err(ReadScalarError::InvalidLeb),
            },
            ValueType::Float => if raw.len() == 8 {
                Ok(ScalarValue::F64(vstd::bytes::u64_from_le_bytes(raw)))
            } else {
                Err(ReadScalarError::InvalidFloat)
            },
            ValueType::String => match text::read_text(raw) {
                Some(s) => Ok(ScalarValue::Str(s.to_owned())),
                None => Err(ReadScalarError::InvalidUtf8),
            },
            ValueType::Bytes => Ok(ScalarValue::Bytes(copy_bytes(raw))),
            ValueType::Counter => match leb::read_signed(raw) {
                Some((v, _)) => Ok(ScalarValue::Counter(v)),
                None => Err(ReadScalarError::InvalidLeb),
            },
            ValueType::Timestamp => match leb::read_signed(raw) {
                Some((v, _)) => Ok(ScalarValue::Timestamp(v)),
                None => Err(ReadScalarError::InvalidLeb),
            },
            ValueType::Unknown(type_code) => Ok(
                ScalarValue::Unknown { type_code, bytes: copy_bytes(raw) },
            ),
        }
    }
}

impl Clone for ScalarValue {
    fn clone(&self) -> (r: Self)
        ensures
            r@ == self@,
    {
        match self {
            ScalarValue::Null => ScalarValue::Null,
            ScalarValue::Boolean(b) => ScalarValue::Boolean(*b),
            ScalarValue::Uint(v) => ScalarValue::Uint(*v),
            ScalarValue::Int(v) => ScalarValue::Int(*v),
            ScalarValue::F64(v) => ScalarValue::F64(*v),
            ScalarValue::Str(s) => ScalarValue::Str(s.clone()),
            ScalarValue::Bytes(b) => ScalarValue::Bytes(copy_bytes(b.as_slice())),
            ScalarValue::Counter(v) => ScalarValue::Counter(*v),
            ScalarValue::Timestamp(v) => ScalarValue::Timestamp(*v),
            ScalarValue::Unknown { type_code, bytes } => ScalarValue::Unknown {
                type_code: *type_code,
                bytes: copy_bytes(bytes.as_slice()),
            },
        }
    }
}

/// The bytes of a float are the digits of its 64 bits to the base 256, the
/// lowest first.
pub proof fn float_bytes_are_little_endian(bits: u64)
    ensures
        ({
            let raw = ScalarModel::F64(bits).raw();
            &&& raw.len() == 8
            &&& raw[0] == bits % 0x100
            &&& raw[1] == (bits / 0x100) % 0x100
            &&& raw[2] == (bits / 0x10000) % 0x100
            &&& raw[3] == (bits / 0x1000000) % 0x100
            &&& raw[4] == (bits / 0x100000000) % 0x100
            &&& raw[5] == (bits / 0x10000000000) % 0x100
            &&& raw[6] == (bits / 0x1000000000000) % 0x100
            &&& raw[7] == (bits / 0x100000000000000) % 0x100
        }),
{
    vstd::bytes::spec_u64_to_le_bytes_to_open(bits);
    assert({
        &&& bits & 0xff == bits % 0x100
        &&& (bits >> 8u64) & 0xff == (bits / 0x100) % 0x100
        &&& (bits >> 16u64) & 0xff == (bits / 0x10000) % 0x100
        &&& (bits >> 24u64) & 0xff == (bits / 0x1000000) % 0x100
        &&& (bits >> 32u64) & 0xff == (bits / 0x100000000) % 0x100
        &&& (bits >> 40u64) & 0xff == (bits / 0x10000000000) % 0x100
        &&& (bits >> 48u64) & 0xff == (bits / 0x1000000000000) % 0x100
        &&& (bits >> 56u64) & 0xff == (bits / 0x100000000000000) % 0x100
    }) by (bit_vector);
}

/// Eight bytes, and no other number of them, are a float: the one of which they
/// are the digits to the base 256, the lowest first.
pub proof fn floats_are_read_little_endian(raw: Seq<u8>)
    ensures
        scalar_of(ValueType::Float, raw) is Ok <==> raw.len() == 8,
        raw.len() == 8 ==> (scalar_of(ValueType::Float, raw) matches Ok(ScalarModel::F64(bits))
            && bits == raw[0] + 0x100 * raw[1] + 0x10000 * raw[2] + 0x1000000 * raw[3] + 0x100000000 * raw[4] + 0x10000000000 * raw[5] + 0x1000000000000 * raw[6] + 0x100000000000000 * raw[7]),
{
    if raw.len() == 8 {
        match scalar_of(ValueType::Float, raw) {
            Ok(ScalarModel::F64(bits)) => {
                float_bytes_are_little_endian(bits);
                vstd::bytes::lemma_auto_spec_u64_to_from_le_bytes();
                assert(ScalarModel::F64(bits).raw() == raw);
                assert(bits == bits % 0x100 + 0x100 * ((bits / 0x100) % 0x100) + 0x10000 * ((bits / 0x10000) % 0x100) + 0x1000000 * ((bits / 0x1000000) % 0x100) + 0x100000000 * ((bits / 0x100000000) % 0x100) + 0x10000000000 * ((bits / 0x10000000000) % 0x100) + 0x1000000000000 * ((bits / 0x1000000000000) % 0x100) + 0x100000000000000 * ((bits / 0x100000000000000) % 0x100)) by (bit_vector);
            },
            _ => {},
        }
    }
}

/// What is written of a value: a number as a LEB128 number, a text as UTF-8,
/// bytes as they are, and of null and the booleans nothing.
pub proof fn values_are_written_so(v: ScalarModel)
    ensures
        match v {
            ScalarModel::Null | ScalarModel::Boolean(_) => v.raw().len() == 0,
            ScalarModel::Uint(n) => v.raw() == leb::uleb_bytes(n as nat),
            ScalarModel::Int(n) | ScalarModel::Counter(n) | ScalarModel::Timestamp(n) => v.raw()
                == leb::sleb_bytes(n as int),
            ScalarModel::F64(_) => v.raw().len() == 8,
            ScalarModel::Str(s) => v.raw() == vstd::utf8::encode_utf8(s),
            ScalarModel::Bytes(b) => v.raw() == b,
            ScalarModel::Unknown { bytes, .. } => v.raw() == bytes,
        },
        v.value_type().spec_code() == match v {
            ScalarModel::Null => 0u8,
            ScalarModel::Boolean(b) => if b {
                2u8
            } else {
                1u8
            },
            ScalarModel::Uint(_) => 3u8,
            ScalarModel::Int(_) => 4u8,
            ScalarModel::F64(_) => 5u8,
            ScalarModel::Str(_) => 6u8,
            ScalarModel::Bytes(_) => 7u8,
            ScalarModel::Counter(_) => 8u8,
            ScalarModel::Timestamp(_) => 9u8,
            ScalarModel::Unknown { type_code, .. } => type_code,
        },
{
    match v {
        ScalarModel::F64(bits) => float_bytes_are_little_endian(bits),
        _ => {},
    }
}

/// `v` is what bytes with the type of a given number hold. A number may be
/// followed by other bytes.
pub open spec fn holds(number: int, raw: Seq<u8>, v: ScalarModel) -> bool {
    match v {
        ScalarModel::Null => number == 0,
        ScalarModel::Boolean(b) => number == if b {
            2int
        } else {
            1int
        },
        ScalarModel::Uint(n) => number == 3 && (leb::uleb_read(raw, 0) matches Some((m, _)) && m
            == n),
        ScalarModel::Int(n) => number == 4 && (leb::sleb_read(raw, 0) matches Some((m, _)) && m
            == n),
        ScalarModel::F64(bits) => number == 5 && raw.len() == 8 && bits == raw[0] + 0x100 * raw[1]
            + 0x10000 * raw[2] + 0x1000000 * raw[3] + 0x100000000 * raw[4] + 0x10000000000 * raw[5]
            + 0x1000000000000 * raw[6] + 0x100000000000000 * raw[7],
        ScalarModel::Str(s) => number == 6 && raw == vstd::utf8::encode_utf8(s),
        ScalarModel::Bytes(b) => number == 7 && raw == b,
        ScalarModel::Counter(n) => number == 8 && (leb::sleb_read(raw, 0) matches Some((m, _)) && m
            == n),
        ScalarModel::Timestamp(n) => number == 9 && (leb::sleb_read(raw, 0) matches Some((m, _))
            && m == n),
        ScalarModel::Unknown { type_code, bytes } => number == type_code && 10 <= number && raw
            == bytes,
    }
}

/// A value is read exactly where some value is what the bytes hold, and it is
/// that one. The low four bits of the metadata are the number of the type.
pub proof fn values_are_read_so(meta: u64, raw: Seq<u8>, v: ScalarModel)
    ensures
        scalar_of(ValueMeta(meta).spec_type(), raw) == Ok::<_, ReadScalarError>(v) <==> holds(
            meta as int % 16,
            raw,
            v,
        ),
        scalar_of(ValueMeta(meta).spec_type(), raw) matches Err(e) ==> match e {
            ReadScalarError::InvalidLeb => {
                ||| meta % 16 == 3 && leb::uleb_read(raw, 0) is None
                ||| (meta % 16 == 4 || meta % 16 == 8 || meta % 16 == 9) && leb::sleb_read(
                    raw,
                    0,
                ) is None
            },
            ReadScalarError::InvalidFloat => meta % 16 == 5 && raw.len() != 8,
            ReadScalarError::InvalidUtf8 => meta % 16 == 6 && !vstd::utf8::valid_utf8(raw),
        },
        ValueMeta(meta).spec_length() == meta / 16,
{
    leb::lemma_leb_limits();
    leb::lemma_uleb_read_bounds(raw, 0);
    leb::lemma_sleb_read_bounds(raw, 0);
    floats_are_read_little_endian(raw);
    match v {
        ScalarModel::Str(s) => {
            text::lemma_text_of_text_bytes(s);
        },
        _ => {},
    }
    if vstd::utf8::valid_utf8(raw) {
        vstd::utf8::decode_utf8_encode_utf8(raw);
    }
}

/// The actions have the numbers from 0 to 7, and no other number is an action.
pub proof fn actions_have_these_numbers(action: Action, code: u64)
    ensures
        Action::of_code(code) == Some(action) <==> action.spec_code() == code,
        Action::of_code(code) is Some <==> code <= 7,
        action.spec_code() == match action {
            Action::MakeMap => 0u64,
            Action::Put => 1u64,
            Action::MakeList => 2u64,
            Action::Delete => 3u64,
            Action::MakeText => 4u64,
            Action::Increment => 5u64,
            Action::MakeTable => 6u64,
            Action::Mark => 7u64,
        },
{
}

/// A value shows what it holds, and so does a key.
pub proof fn values_show_what_they_hold(v: ScalarValue, k: KeyRef)
    ensures
        match v {
            ScalarValue::Null => v@ is Null,
            ScalarValue::Boolean(b) => v@ == ScalarModel::Boolean(b),
            ScalarValue::Uint(n) => v@ == ScalarModel::Uint(n),
            ScalarValue::Int(n) => v@ == ScalarModel::Int(n),
            ScalarValue::F64(n) => v@ == ScalarModel::F64(n),
            ScalarValue::Str(s) => v@ == ScalarModel::Str(s@),
            ScalarValue::Bytes(b) => v@ == ScalarModel::Bytes(b@),
            ScalarValue::Counter(n) => v@ == ScalarModel::Counter(n),
            ScalarValue::Timestamp(n) => v@ == ScalarModel::Timestamp(n),
            ScalarValue::Unknown { type_code, bytes } => v@ == (ScalarModel::Unknown {
                type_code,
                bytes: bytes@,
            }),
        },
        match k {
            KeyRef::Prop(s) => k@ == KeyModel::Prop(s@),
            KeyRef::Elem(e) => k@ == KeyModel::Elem(e),
        },
{
}

} // verus!
