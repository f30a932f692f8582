//! The metadata of values: their type and their length.
use vstd::prelude::*;

verus! {

/// The type of a value in a value column.
#[derive(Clone, Copy, Debug, PartialEq, Eq, Structural)]
pub enum ValueType {
    Null,
    False,
    True,
    Uleb,
    Leb,
    Float,
    String,
    Bytes,
    Counter,
    Timestamp,
    Unknown(u8),
}

impl ValueType {
    /// The number that stands for the type.
    pub open spec fn spec_code(self) -> u8 {
        match self {
            ValueType::Null => 0,
            ValueType::False => 1,
            ValueType::True => 2,
            ValueType::Uleb => 3,
            ValueType::Leb => 4,
            ValueType::Float => 5,
            ValueType::String => 6,
            ValueType::Bytes => 7,
            ValueType::Counter => 8,
            ValueType::Timestamp => 9,
            ValueType::Unknown(code) => code,
        }
    }

    /// The type that a number stands for.
    pub open spec fn of_code(code: u8) -> ValueType {
        if code == 0 {
            ValueType::Null
        } else if code == 1 {
            ValueType::False
        } else if code == 2 {
            ValueType::True
        } else if code == 3 {
            ValueType::Uleb
        } else if code == 4 {
            ValueType::Leb
        } else if code == 5 {
            ValueType::Float
        } else if code == 6 {
            ValueType::String
        } else if code == 7 {
            ValueType::Bytes
        } else if code == 8 {
            ValueType::Counter
        } else if code == 9 {
            ValueType::Timestamp
        } else {
            ValueType::Unknown(code)
        }
    }

    /// The value is a signed LEB128 number.
    pub open spec fn is_signed(self) -> bool {
        self is Leb || self is Counter || self is Timestamp
    }

    pub fn code(self) -> (r: u8)
        ensures
            r == self.spec_code(),
    {
        match self {
            ValueType::Null => 0,
            ValueType::False => 1,
            ValueType::True => 2,
            ValueType::Uleb => 3,
            ValueType::Leb => 4,
            ValueType::Float => 5,
            ValueType::String => 6,
            ValueType::Bytes => 7,
            ValueType::Counter => 8,
            ValueType::Timestamp => 9,
            ValueType::Unknown(code) => code,
        }
    }

    pub fn from_code(code: u8) -> (r: ValueType)
        ensures
            r == ValueType::of_code(code),
    {
        match code {
            0 => ValueType::Null,
            1 => ValueType::False,
            2 => ValueType::True,
            3 => ValueType::Uleb,
            4 => ValueType::Leb,
            5 => ValueType::Float,
            6 => ValueType::String,
            7 => ValueType::Bytes,
            8 => ValueType::Counter,
            9 => ValueType::Timestamp,
            code => ValueType::Unknown(code),
        }
    }
}

/// The type of a value in its low four bits and the length of its bytes above.
#[derive(Clone, Copy, Debug, PartialEq, Eq, Structural)]
pub struct ValueMeta(pub u64);

impl ValueMeta {
    pub open spec fn spec_type(self) -> ValueType {
        ValueType::of_code((self.0 % 16) as u8)
    }

    pub open spec fn spec_length(self) -> nat {
        (self.0 / 16) as nat
    }

    pub fn new(ty: ValueType, length: u64) -> (r: ValueMeta)
        requires
            ty.spec_code() < 16,
            length < 0x1000_0000_0000_0000,
        ensures
            r.0 == length * 16 + ty.spec_code(),
            r.spec_type() == ValueType::of_code(ty.spec_code()),
            r.spec_length() == length,
    {
        ValueMeta(length * 16 + ty.code() as u64)
    }

    pub fn type_code(&self) -> (r: ValueType)
        ensures
            r == self.spec_type(),
    {
        ValueType::from_code((self.0 % 16) as u8)
    }

    pub fn length(&self) -> (r: u64)
        ensures
            r == self.spec_length(),
    {
        self.0 / 16
    }
}

/// The types of values have the numbers 0 to 9, and any other number stands for
/// a type that is not known and keeps it.
pub proof fn value_types_have_these_numbers(ty: ValueType, code: u8)
    ensures
        ValueType::of_code(code).spec_code() == code,
        ty.spec_code() == code ==> match ty {
            ValueType::Null => code == 0,
            ValueType::False => code == 1,
            ValueType::True => code == 2,
            ValueType::Uleb => code == 3,
            ValueType::Leb => code == 4,
            ValueType::Float => code == 5,
            ValueType::String => code == 6,
            ValueType::Bytes => code == 7,
            ValueType::Counter => code == 8,
            ValueType::Timestamp => code == 9,
            ValueType::Unknown(c) => code == c,
        },
        ValueType::of_code(code) is Unknown <==> code > 9,
        ValueType::of_code(code).is_signed() <==> code == 4 || code == 8 || code == 9,
{
}

/// A value's type and length are the remainder and the quotient of its number by
/// sixteen.
pub proof fn values_are_described_so(meta: ValueMeta)
    ensures
        meta.spec_length() * 16 + meta.spec_type().spec_code() == meta.0,
        meta.spec_type().spec_code() < 16,
{
}

} // verus!
