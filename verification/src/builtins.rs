use vstd::prelude::*;
use vstd::string::*;
use crate::value::{FunctionValue, Value};

verus! {

/// The number of functions that the host provides.
pub const BUILTIN_COUNT: u16 = 5;

pub const BUILTIN_LEN: u16 = 0;

pub const BUILTIN_SLEEP: u16 = 1;

pub const BUILTIN_INPUT: u16 = 2;

pub const BUILTIN_ATOI: u16 = 3;

pub const BUILTIN_ITERABLE_GET: u16 = 4;

/// The names of the host's functions, by slot.
pub open spec fn builtin_names() -> Seq<Seq<char>> {
    seq!["len"@, "sleep"@, "input"@, "atoi"@, "internal_iterable_get"@]
}

/// The names that the compiler knows before it reads a program: those of the
/// host's functions, each at the index that is its slot.
pub fn init_compiler_globals() -> (globals: Vec<String>)
    ensures
        globals.len() == BUILTIN_COUNT,
        forall|i: int| 0 <= i < BUILTIN_COUNT ==> (#[trigger] globals[i])@ == builtin_names()[i],
{
    let mut globals: Vec<String> = Vec::new();
    globals.push(String::from_str("len"));
    globals.push(String::from_str("sleep"));
    globals.push(String::from_str("input"));
    globals.push(String::from_str("atoi"));
    globals.push(String::from_str("internal_iterable_get"));
    globals
}

/// The globals with which a program starts: the host's functions, each in
/// its slot.
pub fn init_vm_globals() -> (globals: Vec<Option<Value>>)
    ensures
        globals.len() == BUILTIN_COUNT,
        forall|i: int|
            0 <= i < BUILTIN_COUNT ==> #[trigger] globals[i] == Some(
                Value::Function(FunctionValue::Builtin(i as u16)),
            ),
{
    let mut globals: Vec<Option<Value>> = Vec::new();
    let mut ind: u16 = 0;
    while ind < BUILTIN_COUNT
        invariant
            ind <= BUILTIN_COUNT,
            globals.len() == ind,
            forall|i: int|
                0 <= i < ind ==> #[trigger] globals[i] == Some(
                    Value::Function(FunctionValue::Builtin(i as u16)),
                ),
        decreases BUILTIN_COUNT - ind,
    {
        globals.push(Some(Value::Function(FunctionValue::Builtin(ind))));
        ind = ind + 1;
    }
    globals
}

} // verus!
