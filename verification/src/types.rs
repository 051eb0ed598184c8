use vstd::prelude::*;

verus! {

/// The kind of a value as it is written in one byte, in bytecode constants and
/// in the entries of heap objects and arrays.
#[derive(Clone, Copy, Debug, PartialEq, Eq, Structural)]
pub enum Type {
    Empty,
    Number,
    Boolean,
    Function,
    String,
    Object,
    Array,
    Null,
}

impl Type {
    /// The byte that stands for this kind.
    pub open spec fn tag(self) -> u8 {
        match self {
            Type::Empty => 0,
            Type::Number => 1,
            Type::Boolean => 2,
            Type::Function => 3,
            Type::String => 4,
            Type::Object => 5,
            Type::Array => 6,
            Type::Null => 7,
        }
    }

    /// The kind that a byte stands for, if it stands for one.
    pub open spec fn of_tag(byte: u8) -> Option<Type> {
        if byte == 0 {
            Some(Type::Empty)
        } else if byte == 1 {
            Some(Type::Number)
        } else if byte == 2 {
            Some(Type::Boolean)
        } else if byte == 3 {
            Some(Type::Function)
        } else if byte == 4 {
            Some(Type::String)
        } else if byte == 5 {
            Some(Type::Object)
        } else if byte == 6 {
            Some(Type::Array)
        } else if byte == 7 {
            Some(Type::Null)
        } else {
            None
        }
    }

    pub fn to_byte(self) -> (byte: u8)
        ensures
            byte == self.tag(),
    {
        match self {
            Type::Empty => 0,
            Type::Number => 1,
            Type::Boolean => 2,
            Type::Function => 3,
            Type::String => 4,
            Type::Object => 5,
            Type::Array => 6,
            Type::Null => 7,
        }
    }

    pub fn from_byte(byte: u8) -> (typ: Option<Type>)
        ensures
            typ == Type::of_tag(byte),
    {
        match byte {
            0 => Some(Type::Empty),
            1 => Some(Type::Number),
            2 => Some(Type::Boolean),
            3 => Some(Type::Function),
            4 => Some(Type::String),
            5 => Some(Type::Object),
            6 => Some(Type::Array),
            7 => Some(Type::Null),
            _ => None,
        }
    }

    /// Reading back the byte of a kind gives the kind.
    pub proof fn lemma_tag_round_trip(typ: Type)
        ensures
            Type::of_tag(typ.tag()) == Some(typ),
    {
    }
}

} // verus!
