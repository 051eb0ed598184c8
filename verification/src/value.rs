use vstd::prelude::*;
use crate::types::Type;

verus! {

/// A handle to a block of the heap. Zero is the handle of nothing.
pub type Ptr = u64;

pub const NULL_PTR: Ptr = 0;

/// What a builtin function's payload carries above its identifier.
pub const BUILTIN_MARK: u64 = 0x100_0000_0000;

/// A function: one of the host's, by its identifier, or one of the program's,
/// by the offset of its first instruction and the number of its parameters.
#[derive(Clone, Copy, Debug, PartialEq, Eq, Structural)]
pub enum FunctionValue {
    Builtin(u16),
    UserDefined(u32, u8),
}

/// A value of the language. A number is held as its 32-bit pattern; strings,
/// objects and arrays are held by the handle of their block.
#[derive(Clone, Copy, Debug, PartialEq, Eq, Structural)]
pub enum Value {
    Number(u32),
    Bool(bool),
    Null,
    Function(FunctionValue),
    String(Ptr),
    Object(Ptr),
    Array(Ptr),
}

impl Value {
    /// The kind under which a value is stored.
    pub open spec fn kind(self) -> Type {
        match self {
            Value::Number(_) => Type::Number,
            Value::Bool(_) => Type::Boolean,
            Value::Null => Type::Null,
            Value::Function(_) => Type::Function,
            Value::String(_) => Type::String,
            Value::Object(_) => Type::Object,
            Value::Array(_) => Type::Array,
        }
    }

    /// The eight-byte word under which a value is stored, beside its kind.
    pub open spec fn spec_payload(self) -> u64 {
        match self {
            Value::Number(bits) => bits as u64,
            Value::Bool(b) => if b {
                1
            } else {
                0
            },
            Value::Null => 0,
            Value::Function(FunctionValue::UserDefined(offset, arity)) => (arity as int + offset
                as int * 256) as u64,
            Value::Function(FunctionValue::Builtin(id)) => (BUILTIN_MARK as int + id as int
                * 256) as u64,
            Value::String(ptr) => ptr,
            Value::Object(ptr) => ptr,
            Value::Array(ptr) => ptr,
        }
    }

    /// The value that a kind and a word stand for. The empty kind stands for
    /// no value; it is read as null.
    pub open spec fn decode(typ: Type, payload: u64) -> Value {
        match typ {
            Type::Empty => Value::Null,
            Type::Null => Value::Null,
            Type::Number => Value::Number((payload % 0x1_0000_0000) as u32),
            Type::Boolean => Value::Bool(payload % 256 == 1),
            Type::Function => if (payload / BUILTIN_MARK) % 2 == 1 {
                Value::Function(FunctionValue::Builtin(((payload / 256) % 0x1_0000) as u16))
            } else {
                Value::Function(
                    FunctionValue::UserDefined(
                        ((payload / 256) % 0x1_0000_0000) as u32,
                        (payload % 256) as u8,
                    ),
                )
            },
            Type::String => Value::String(payload),
            Type::Object => Value::Object(payload),
            Type::Array => Value::Array(payload),
        }
    }

    pub fn type_of(&self) -> (typ: Type)
        ensures
            typ == self.kind(),
            typ != Type::Empty,
    {
        match self {
            Value::Number(_) => Type::Number,
            Value::Bool(_) => Type::Boolean,
            Value::Null => Type::Null,
            Value::Function(_) => Type::Function,
            Value::String(_) => Type::String,
            Value::Object(_) => Type::Object,
            Value::Array(_) => Type::Array,
        }
    }

    pub fn payload(&self) -> (word: u64)
        ensures
            word == self.spec_payload(),
    {
        match self {
            Value::Number(bits) => *bits as u64,
            Value::Bool(b) => if *b {
                1
            } else {
                0
            },
            Value::Null => 0,
            Value::Function(FunctionValue::UserDefined(offset, arity)) => *arity as u64
                + *offset as u64 * 256,
            Value::Function(FunctionValue::Builtin(id)) => BUILTIN_MARK + *id as u64 * 256,
            Value::String(ptr) => *ptr,
            Value::Object(ptr) => *ptr,
            Value::Array(ptr) => *ptr,
        }
    }

    pub fn from_payload(typ: Type, payload: u64) -> (value: Value)
        ensures
            value == Value::decode(typ, payload),
    {
        match typ {
            Type::Empty => Value::Null,
            Type::Null => Value::Null,
            Type::Number => Value::Number((payload % 0x1_0000_0000) as u32),
            Type::Boolean => Value::Bool(payload % 256 == 1),
            Type::Function => if (payload / BUILTIN_MARK) % 2 == 1 {
                Value::Function(FunctionValue::Builtin(((payload / 256) % 0x1_0000) as u16))
            } else {
                Value::Function(
                    FunctionValue::UserDefined(
                        ((payload / 256) % 0x1_0000_0000) as u32,
                        (payload % 256) as u8,
                    ),
                )
            },
            Type::String => Value::String(payload),
            Type::Object => Value::Object(payload),
            Type::Array => Value::Array(payload),
        }
    }

    /// A value stored under its kind and word is read back unchanged.
    pub proof fn lemma_payload_round_trip(value: Value)
        ensures
            Value::decode(value.kind(), value.spec_payload()) == value,
            value.kind() != Type::Empty,
    {
    }
}

} // verus!
