use vstd::prelude::*;
use crate::builtins::{
    BUILTIN_ATOI, BUILTIN_INPUT, BUILTIN_ITERABLE_GET, BUILTIN_LEN, BUILTIN_SLEEP,
};
use crate::bytecode::{
    spec_slot_at, OP_ACCESS, OP_ADD, OP_ALLOCATE, OP_ALLOCATE_ARRAY, OP_AND, OP_CALL, OP_DECLARE,
    OP_DECLARE_GLOBAL, OP_DIV, OP_END_FUNCTION, OP_EQ, OP_GE, OP_GET, OP_GET_GLOBAL, OP_GR, OP_JUMP,
    OP_JUMP_IF_FALSE, OP_LE, OP_LS, OP_MUL, OP_NE, OP_OR, OP_POP, OP_POW, OP_PRINT, OP_PUSH,
    OP_RETURN, OP_SET, OP_SET_GLOBAL, OP_SET_PROPERTY, OP_SUB, OP_UNARY_NOT, OP_UNARY_SUB,
};
use crate::bytes::spec_word_at;
use crate::gc::collected;
use crate::hash_table::HashEntry;
use crate::heap::{spec_parse_index, HeapError, HeapManager};
use crate::runtime_context::slot_value;
use crate::number::{
    index_pattern, is_integral, spec_equal, spec_from_le_bytes, spec_less, spec_negate,
    spec_to_index, EXACT_LIMIT,
};
use crate::output::{spec_render, Part};
use crate::types::Type;
use crate::value::{FunctionValue, Ptr, Value};

verus! {

/// An operation on two numbers that the host computes.
#[derive(Clone, Copy, Debug, PartialEq, Eq, Structural)]
pub enum NumberOp {
    Add,
    Sub,
    Mul,
    Div,
    Pow,
}

/// What the machine asks of its host before it goes on.
pub enum Demand {
    /// The result of an operation on two numbers, the left and the right.
    Arithmetic(NumberOp, u32, u32),
    /// The number that a text spells.
    ParseNumber(Seq<u8>),
    /// To wait for so many seconds.
    Sleep(u64),
    /// A line of input.
    Input,
}

/// The state of the machine: the code and where it stands in it, the stack
/// and the base of the current frame, the globals by slot, the heap, the
/// lines printed so far, and what the machine waits for.
pub struct Machine {
    pub code: Seq<u8>,
    pub ip: usize,
    pub stack: Seq<Value>,
    pub offset: usize,
    pub globals: Seq<Option<Value>>,
    pub heap: HeapManager,
    pub output: Seq<Seq<Part>>,
    pub pending: Option<Demand>,
}

/// The machine after an instruction, or the message of the error that ended
/// the program.
pub type Turn = Result<Machine, Seq<char>>;

pub open spec fn fail(message: &str) -> Turn {
    Err(message@)
}

/// True when the code holds `n` bytes of operands after the instruction.
pub open spec fn has_operands(m: Machine, n: int) -> bool {
    m.ip + n < m.code.len()
}

/// The index that the four bytes at `at` hold.
pub open spec fn target_at(code: Seq<u8>, at: int) -> usize {
    spec_to_index(spec_from_le_bytes(code.subrange(at, at + 4)))
}

/// True when the current frame holds a value to pop.
pub open spec fn can_pop(m: Machine) -> bool {
    m.stack.len() > m.offset
}

pub open spec fn top(m: Machine) -> Value {
    m.stack.last()
}

pub open spec fn pop(m: Machine) -> Machine {
    Machine { stack: m.stack.drop_last(), ..m }
}

pub open spec fn push(m: Machine, value: Value) -> Machine {
    Machine { stack: m.stack.push(value), ..m }
}

pub open spec fn advance(m: Machine, n: int) -> Machine {
    Machine { ip: (m.ip + n) as usize, ..m }
}

/// The globals after a value is stored in a slot; the slots between the
/// last and a new one hold nothing.
pub open spec fn store_global(globals: Seq<Option<Value>>, slot: u16, value: Value) -> Seq<
    Option<Value>,
> {
    Seq::new(
        if slot < globals.len() {
            globals.len()
        } else {
            (slot + 1) as nat
        },
        |i: int|
            if i == slot {
                Some(value)
            } else if i < globals.len() {
                globals[i]
            } else {
                None
            },
    )
}

/// Equality of two values: values of different kinds are not equal, numbers
/// are compared as numbers, strings, objects and arrays by their handles,
/// and functions of the program by where they begin.
pub open spec fn values_equal(a: Value, b: Value) -> bool {
    match (a, b) {
        (Value::Number(x), Value::Number(y)) => spec_equal(x, y),
        (Value::Bool(x), Value::Bool(y)) => x == y,
        (Value::Null, Value::Null) => true,
        (Value::String(x), Value::String(y)) => x == y,
        (Value::Object(x), Value::Object(y)) => x == y,
        (Value::Array(x), Value::Array(y)) => x == y,
        (
            Value::Function(FunctionValue::UserDefined(x, _)),
            Value::Function(FunctionValue::UserDefined(y, _)),
        ) => x == y,
        (
            Value::Function(FunctionValue::Builtin(x)),
            Value::Function(FunctionValue::Builtin(y)),
        ) => x == y,
        _ => false,
    }
}

/// The constant that stands after a push.
pub open spec fn push_constant(m: Machine) -> Turn {
    match Type::of_tag(m.code[m.ip + 1]) {
        Some(Type::Null) => Ok(advance(push(m, Value::Null), 2)),
        Some(Type::Boolean) => if !has_operands(m, 2) {
            fail("Unexpected end of code")
        } else {
            Ok(advance(push(m, Value::Bool(m.code[m.ip + 2] == 1)), 3))
        },
        Some(Type::Number) => if !has_operands(m, 5) {
            fail("Unexpected end of code")
        } else {
            Ok(
                advance(
                    push(
                        m,
                        Value::Number(spec_from_le_bytes(m.code.subrange(m.ip + 2, m.ip + 6))),
                    ),
                    6,
                ),
            )
        },
        Some(Type::Function) => if !has_operands(m, 6) {
            fail("Unexpected end of code")
        } else if target_at(m.code, m.ip + 2) > u32::MAX {
            fail("Not a type")
        } else {
            Ok(
                advance(
                    push(
                        m,
                        Value::Function(
                            FunctionValue::UserDefined(
                                target_at(m.code, m.ip + 2) as u32,
                                m.code[m.ip + 6],
                            ),
                        ),
                    ),
                    7,
                ),
            )
        },
        Some(Type::String) => if !has_operands(m, 9) {
            fail("Unexpected end of code")
        } else {
            Ok(advance(push(m, Value::String(spec_word_at(m.code, m.ip + 2))), 10))
        },
        _ => fail("Not a type"),
    }
}

/// A push: of a local by its slot, of a global by its slot, or of a
/// constant.
pub open spec fn push_step(m: Machine) -> Turn {
    if !has_operands(m, 1) {
        fail("Unexpected end of code")
    } else if m.code[m.ip + 1] == OP_GET {
        if !has_operands(m, 2) {
            fail("Unexpected end of code")
        } else if m.offset + m.code[m.ip + 2] >= m.stack.len() {
            fail("Variable doesn't exist")
        } else {
            Ok(advance(push(m, m.stack[m.offset + m.code[m.ip + 2]]), 3))
        }
    } else if m.code[m.ip + 1] == OP_GET_GLOBAL {
        if !has_operands(m, 3) {
            fail("Unexpected end of code")
        } else {
            let slot = spec_slot_at(m.code, m.ip + 2);
            if slot >= m.globals.len() {
                fail("Variable doesn't exist")
            } else {
                match m.globals[slot as int] {
                    None => fail("Variable doesn't exist"),
                    Some(value) => Ok(advance(push(m, value), 4)),
                }
            }
        }
    } else {
        push_constant(m)
    }
}

/// A jump, and a jump that is taken where the value popped is false.
pub open spec fn jump_step(m: Machine, conditional: bool) -> Turn {
    if !has_operands(m, 4) {
        fail("Unexpected end of code")
    } else if !conditional {
        Ok(Machine { ip: target_at(m.code, m.ip + 1), ..m })
    } else if !can_pop(m) {
        fail("Stack underflow")
    } else if top(m) == Value::Bool(false) {
        Ok(Machine { ip: target_at(m.code, m.ip + 1), ..pop(m) })
    } else {
        Ok(advance(pop(m), 5))
    }
}

pub open spec fn number_op(op: u8) -> NumberOp {
    if op == OP_ADD {
        NumberOp::Add
    } else if op == OP_SUB {
        NumberOp::Sub
    } else if op == OP_MUL {
        NumberOp::Mul
    } else if op == OP_DIV {
        NumberOp::Div
    } else {
        NumberOp::Pow
    }
}

/// An operation on two numbers: the right operand is popped, then the left,
/// and the machine waits for the host to compute. A power needs a whole
/// exponent.
pub open spec fn arithmetic_step(m: Machine, op: u8) -> Turn {
    if !can_pop(m) || !can_pop(pop(m)) {
        fail("Stack underflow")
    } else {
        match (top(pop(m)), top(m)) {
            (Value::Number(left), Value::Number(right)) => if op == OP_POW && !is_integral(right) {
                fail("Pow being a float number is not supported")
            } else {
                Ok(
                    Machine {
                        pending: Some(Demand::Arithmetic(number_op(op), left, right)),
                        ..advance(pop(pop(m)), 1)
                    },
                )
            },
            _ => fail("Arithmetic on anything but numbers is not supported"),
        }
    }
}

/// Equality and its negation.
pub open spec fn equality_step(m: Machine, negated: bool) -> Turn {
    if !can_pop(m) || !can_pop(pop(m)) {
        fail("Stack underflow")
    } else {
        Ok(
            advance(
                push(pop(pop(m)), Value::Bool(values_equal(top(m), top(pop(m))) != negated)),
                1,
            ),
        )
    }
}

/// The order of two numbers: the left operand, which was pushed first,
/// against the right.
pub open spec fn ordered(op: u8, left: u32, right: u32) -> bool {
    if op == OP_GE {
        spec_less(right, left) || spec_equal(left, right)
    } else if op == OP_GR {
        spec_less(right, left)
    } else if op == OP_LE {
        spec_less(left, right) || spec_equal(left, right)
    } else {
        spec_less(left, right)
    }
}

pub open spec fn comparison_step(m: Machine, op: u8) -> Turn {
    if !can_pop(m) || !can_pop(pop(m)) {
        fail("Stack underflow")
    } else {
        match (top(pop(m)), top(m)) {
            (Value::Number(left), Value::Number(right)) => Ok(
                advance(push(pop(pop(m)), Value::Bool(ordered(op, left, right))), 1),
            ),
            _ => fail("Comparison of anything but numbers variables not supported"),
        }
    }
}

pub open spec fn logic_step(m: Machine, op: u8) -> Turn {
    if !can_pop(m) || !can_pop(pop(m)) {
        fail("Stack underflow")
    } else {
        match (top(pop(m)), top(m)) {
            (Value::Bool(left), Value::Bool(right)) => Ok(
                advance(
                    push(
                        pop(pop(m)),
                        Value::Bool(
                            if op == OP_AND {
                                left && right
                            } else {
                                left || right
                            },
                        ),
                    ),
                    1,
                ),
            ),
            _ => fail("And of anything but boolean variables not supported"),
        }
    }
}

pub open spec fn unary_step(m: Machine, op: u8) -> Turn {
    if !can_pop(m) {
        fail("Stack underflow")
    } else if op == OP_UNARY_NOT {
        match top(m) {
            Value::Bool(b) => Ok(advance(push(pop(m), Value::Bool(!b)), 1)),
            _ => fail("Notting a non-boolean value is not allowed"),
        }
    } else {
        match top(m) {
            Value::Number(bits) => Ok(
                advance(push(pop(m), Value::Number(spec_negate(bits))), 1),
            ),
            _ => fail("Minusing a non-number value is not allowed"),
        }
    }
}

/// A pop; of an empty frame nothing is popped.
pub open spec fn pop_step(m: Machine) -> Turn {
    if can_pop(m) {
        Ok(advance(pop(m), 1))
    } else {
        Ok(advance(m, 1))
    }
}

/// The value popped goes to a global; where `keep` is set it stays on the
/// stack too.
pub open spec fn global_step(m: Machine, keep: bool) -> Turn {
    if !has_operands(m, 2) {
        fail("Unexpected end of code")
    } else if !can_pop(m) {
        fail("Stack underflow")
    } else {
        let stored = Machine {
            globals: store_global(m.globals, spec_slot_at(m.code, m.ip + 1), top(m)),
            ..m
        };
        Ok(
            advance(
                if keep {
                    stored
                } else {
                    pop(stored)
                },
                3,
            ),
        )
    }
}

/// The number of objects and arrays in one another that a line shows.
pub open spec fn print_depth(heap: HeapManager) -> nat {
    heap.memory.len() as nat
}

pub open spec fn print_step(m: Machine) -> Turn {
    if !can_pop(m) {
        fail("Stack underflow")
    } else {
        Ok(
            Machine {
                output: m.output.push(spec_render(m.heap, top(m), print_depth(m.heap))),
                ..advance(pop(m), 1)
            },
        )
    }
}

/// The value on top goes to a local by its slot, and stays on the stack.
pub open spec fn set_step(m: Machine) -> Turn {
    if !has_operands(m, 1) {
        fail("Unexpected end of code")
    } else if !can_pop(m) {
        fail("Stack underflow")
    } else if m.offset + m.code[m.ip + 1] >= m.stack.len() {
        fail("Variable doesn't exist")
    } else {
        Ok(
            advance(
                Machine { stack: m.stack.update(m.offset + m.code[m.ip + 1], top(m)), ..m },
                2,
            ),
        )
    }
}

/// The value popped goes to the slot that the call kept for the result, two
/// below the base of the frame.
pub open spec fn return_step(m: Machine) -> Turn {
    if !can_pop(m) {
        fail("Stack underflow")
    } else if m.offset < 2 {
        fail("Cannot return outside function")
    } else {
        Ok(advance(Machine { stack: pop(m).stack.update(m.offset - 2, top(m)), ..m }, 1))
    }
}

/// The call of a function of the program: the arguments leave the stack;
/// the slot of the result, the place to go on at and the base of the
/// caller's frame are pushed, the last as the first slot of the new frame;
/// the arguments come back in their order; the machine goes on at the
/// function.
pub open spec fn enter_function(m: Machine, target: u32, arity: u8) -> Turn {
    if m.stack.len() < m.offset + arity {
        fail("Stack underflow")
    } else if m.ip + 1 >= EXACT_LIMIT || m.offset >= EXACT_LIMIT {
        fail("Stack overflow")
    } else {
        let rest = m.stack.subrange(0, m.stack.len() - arity);
        let args = m.stack.subrange(m.stack.len() - arity, m.stack.len() as int);
        Ok(
            Machine {
                stack: rest + seq![
                    Value::Null,
                    Value::Number(index_pattern((m.ip + 1) as nat)),
                    Value::Number(index_pattern(m.offset as nat)),
                ] + args,
                offset: (rest.len() + 2) as usize,
                ip: target as usize,
                ..m
            },
        )
    }
}

/// The end of a function: the frame is cut down to its first slot, the base
/// of the caller's frame is popped from it and restored, and the place to
/// go on at is popped. The slot of the result is then on top.
pub open spec fn end_function_step(m: Machine) -> Turn {
    if m.stack.len() < m.offset + 1 || m.offset < 1 {
        fail("Stack underflow")
    } else {
        match (m.stack[m.offset as int], m.stack[m.offset - 1]) {
            (Value::Number(base), Value::Number(place)) => if spec_to_index(base) >= m.offset {
                fail("Stack underflow")
            } else {
                Ok(
                    Machine {
                        stack: m.stack.subrange(0, m.offset - 1),
                        offset: spec_to_index(base),
                        ip: spec_to_index(place),
                        ..m
                    },
                )
            },
            _ => fail("Wrong architecture"),
        }
    }
}

/// The read of a property of an object, or of an item of an array; what is
/// not there is null.
pub open spec fn access_step(m: Machine) -> Turn {
    if !can_pop(m) || !can_pop(pop(m)) {
        fail("Stack underflow")
    } else {
        let key = top(pop(m));
        let rest = pop(pop(m));
        match top(m) {
            Value::Object(obj) => if !m.heap.holds_object(obj) {
                fail("Not an accessible object")
            } else {
                match key {
                    Value::String(name) => Ok(
                        advance(
                            push(
                                rest,
                                if m.heap.object_map(obj).contains_key(name) {
                                    m.heap.object_map(obj)[name]
                                } else {
                                    Value::Null
                                },
                            ),
                            1,
                        ),
                    ),
                    _ => fail("Not a valid key"),
                }
            },
            Value::Array(arr) => if !m.heap.holds_array(arr) {
                fail("Not an accessible object")
            } else {
                match key {
                    Value::String(name) => if !m.heap.holds_string(name) {
                        fail("Not a valid key")
                    } else {
                        match spec_parse_index(m.heap.string_bytes(name)) {
                            None => fail("Not a valid key"),
                            Some(index) => Ok(advance(push(rest, item(m.heap, arr, index)), 1)),
                        }
                    },
                    Value::Number(bits) => Ok(
                        advance(push(rest, item(m.heap, arr, spec_to_index(bits))), 1),
                    ),
                    _ => fail("Not a valid key"),
                }
            },
            _ => fail("Not an accessible object"),
        }
    }
}

/// The item of an array at an index; null where it has none there.
pub open spec fn item(heap: HeapManager, arr: crate::value::Ptr, index: usize) -> Value {
    if index < heap.array_items(arr).len() {
        heap.array_items(arr)[index as int]
    } else {
        Value::Null
    }
}

/// The builtin functions that need no new block of the heap: the length of
/// a collection, the item of an array at an index, and those for which the
/// machine waits for its host.
pub open spec fn builtin_step(m: Machine, id: u16) -> Turn {
    if id == BUILTIN_LEN {
        if !can_pop(m) {
            fail("Stack underflow")
        } else {
            match top(m) {
                Value::Array(arr) => if !m.heap.holds_array(arr) {
                    fail("Object is not a collection to have a length")
                } else {
                    Ok(
                        push(
                            pop(m),
                            Value::Number(index_pattern(m.heap.array_items(arr).len())),
                        ),
                    )
                },
                Value::Object(obj) => if !m.heap.holds_object(obj) {
                    fail("Object is not a collection to have a length")
                } else {
                    Ok(
                        push(
                            pop(m),
                            Value::Number(
                                index_pattern(spec_word_at(m.heap.cell(obj).bytes@, 1) as nat),
                            ),
                        ),
                    )
                },
                _ => fail("Object is not a collection to have a length"),
            }
        }
    } else if id == BUILTIN_SLEEP {
        if !can_pop(m) {
            fail("Stack underflow")
        } else {
            match top(m) {
                Value::Number(bits) => Ok(
                    Machine { pending: Some(Demand::Sleep(spec_to_index(bits) as u64)), ..pop(m) },
                ),
                _ => fail("Wrong argument to sleep function"),
            }
        }
    } else if id == BUILTIN_INPUT {
        Ok(Machine { pending: Some(Demand::Input), ..m })
    } else if id == BUILTIN_ATOI {
        if !can_pop(m) {
            fail("Stack underflow")
        } else {
            match top(m) {
                Value::String(ptr) => if !m.heap.holds_string(ptr) {
                    fail("Argument is not a stringified number")
                } else {
                    Ok(
                        Machine {
                            pending: Some(Demand::ParseNumber(m.heap.string_bytes(ptr))),
                            ..pop(m)
                        },
                    )
                },
                _ => fail("Argument is not a stringified number"),
            }
        }
    } else {
        fail("Wrong architecture")
    }
}

/// The values from which the collector starts: the globals by slot, then
/// the values on the stack, oldest first.
pub open spec fn roots(m: Machine) -> Seq<Value> {
    Seq::new(m.globals.len(), |i: int| slot_value(m.globals[i])) + m.stack
}

/// True when `after` is the machine `mid` after a run of the collector.
pub open spec fn swept_after(mid: Machine, after: Machine) -> bool {
    &&& after == Machine { heap: after.heap, ..mid }
    &&& collected(mid.heap, after.heap, roots(mid))
}

pub open spec fn out_of_memory() -> Seq<char> {
    "OOM: Max heap size has been reached"@
}

/// The end of an instruction that asked the heap for a block: where the
/// heap refused, the program fails; else the value that names the block is
/// pushed, and then, where `collect` is set, the collector runs.
pub open spec fn allocation_ends(
    rest: Machine,
    mid: HeapManager,
    result: Result<Ptr, HeapError>,
    kind: Type,
    collect: bool,
    after: Machine,
    failure: Option<Seq<char>>,
) -> bool {
    match result {
        Err(_) => failure == Some(out_of_memory()),
        Ok(ptr) => {
            let pushed = push(Machine { heap: mid, ..rest }, Value::decode(kind, ptr));
            &&& failure is None
            &&& if collect {
                swept_after(pushed, after)
            } else {
                after == pushed
            }
        },
    }
}

/// The sum of two strings, which is the string of the bytes of the left and
/// then of the right, and the sum of two objects, which is the right object
/// after the entries of the left are written into it.
pub open spec fn concat_step(m: Machine, after: Machine, failure: Option<Seq<char>>) -> bool {
    let right = top(m);
    let left = top(pop(m));
    let rest = advance(pop(pop(m)), 1);
    match (left, right) {
        (Value::String(l), Value::String(r)) => if !m.heap.holds_string(l) || !m.heap.holds_string(
            r,
        ) {
            failure == Some("A string must only be added to another string"@)
        } else {
            exists|mid: HeapManager, result: Result<Ptr, HeapError>| #[trigger]
                m.heap.interning(
                    mid,
                    m.heap.string_bytes(l) + m.heap.string_bytes(r),
                    m.heap.string_bytes(l).len() + m.heap.string_bytes(r).len() + 2,
                    false,
                    result,
                ) && allocation_ends(rest, mid, result, Type::String, true, after, failure)
        },
        (Value::Object(l), Value::Object(r)) => if !m.heap.holds_object(l) || !m.heap.holds_object(
            r,
        ) {
            failure == Some("An object must only be added to another object"@)
        } else {
            exists|mid: HeapManager, result: Result<Ptr, HeapError>| #[trigger]
                m.heap.objects_concatenated(mid, r, l, result) && allocation_ends(
                    rest,
                    mid,
                    result,
                    Type::Object,
                    true,
                    after,
                    failure,
                )
        },
        (_, Value::String(_)) => failure == Some(
            "A string must only be added to another string"@,
        ),
        _ => failure == Some("An object must only be added to another object"@),
    }
}

/// The value that stands `i` below the top of a stack.
pub open spec fn below(stack: Seq<Value>, i: int) -> Value {
    stack[stack.len() - 1 - i]
}

/// The keys and values of an object that is allocated, as they leave the
/// stack: first the values from the top down, then the keys.
pub open spec fn popped_pairs(stack: Seq<Value>, n: nat) -> Seq<(Ptr, Value)> {
    Seq::new(
        n,
        |i: int|
            (
                match below(stack, n + i) {
                    Value::String(ptr) => ptr,
                    _ => 0,
                },
                below(stack, i),
            ),
    )
}

/// The values of an array that is allocated, as they leave the stack, from
/// the top down.
pub open spec fn popped_values(stack: Seq<Value>, n: nat) -> Seq<Value> {
    Seq::new(n, |i: int| below(stack, i))
}

/// True when each of the `n` values below the first `n` is a string that
/// can be a key.
pub open spec fn keys_below(stack: Seq<Value>, n: nat) -> bool {
    forall|i: int|
        0 <= i < n ==> (#[trigger] below(stack, n + i) matches Value::String(ptr) && ptr != 0)
}

/// The allocation of an object: the number of its pairs is popped, then the
/// values and the keys.
pub open spec fn allocate_step(m: Machine, after: Machine, failure: Option<Seq<char>>) -> bool {
    if !can_pop(m) {
        failure == Some("Stack underflow"@)
    } else {
        match top(m) {
            Value::Number(bits) => {
                let n = spec_to_index(bits) as nat;
                let stack = pop(m).stack;
                if stack.len() - m.offset < 2 * n {
                    failure == Some("Stack underflow"@)
                } else if !keys_below(stack, n) {
                    failure == Some("Compiling failed"@)
                } else {
                    let rest = advance(
                        Machine { stack: stack.subrange(0, stack.len() - 2 * n), ..m },
                        1,
                    );
                    exists|mid: HeapManager, result: Result<Ptr, HeapError>| #[trigger]
                        m.heap.object_allocated(mid, popped_pairs(stack, n), result)
                            && allocation_ends(
                            rest,
                            mid,
                            result,
                            Type::Object,
                            true,
                            after,
                            failure,
                        )
                }
            },
            _ => failure == Some("Compiling failed"@),
        }
    }
}

/// The allocation of an array: the number of its items is popped, then the
/// items; the item that was pushed first is the first of the array.
pub open spec fn allocate_array_step(m: Machine, after: Machine, failure: Option<Seq<char>>) -> bool {
    if !can_pop(m) {
        failure == Some("Stack underflow"@)
    } else {
        match top(m) {
            Value::Number(bits) => {
                let n = spec_to_index(bits) as nat;
                let stack = pop(m).stack;
                if stack.len() - m.offset < n {
                    failure == Some("Stack underflow"@)
                } else {
                    let rest = advance(Machine { stack: stack.subrange(0, stack.len() - n), ..m }, 1);
                    exists|mid: HeapManager, result: Result<Ptr, HeapError>| #[trigger]
                        m.heap.array_allocated(mid, popped_values(stack, n), result)
                            && allocation_ends(
                            rest,
                            mid,
                            result,
                            Type::Array,
                            true,
                            after,
                            failure,
                        )
                }
            },
            _ => failure == Some("Compiling failed"@),
        }
    }
}

/// The write of a property of an object, or of an item of an array: the
/// key is popped, then the object or array, then the value, which stays on
/// the stack.
pub open spec fn set_property_step(m: Machine, after: Machine, failure: Option<Seq<char>>) -> bool {
    if m.stack.len() - m.offset < 3 {
        failure == Some("Stack underflow"@)
    } else {
        let key = below(m.stack, 0);
        let value = below(m.stack, 2);
        let rest = advance(Machine { stack: m.stack.subrange(0, m.stack.len() - 2), ..m }, 1);
        match below(m.stack, 1) {
            Value::Object(obj) => if !m.heap.holds_object(obj) {
                failure == Some("Not an indexable object"@)
            } else {
                match key {
                    Value::String(name) => if name == 0 {
                        failure == Some("Not a valid key"@)
                    } else {
                        exists|mid: HeapManager, stored: bool| #[trigger]
                            m.heap.property_stored(mid, obj, name, value, stored) && if stored {
                                failure is None && after == Machine { heap: mid, ..rest }
                            } else {
                                failure == Some(out_of_memory())
                            }
                    },
                    _ => failure == Some("Not a valid key"@),
                }
            },
            Value::Array(arr) => if !m.heap.holds_array(arr) {
                failure == Some("Not an indexable object"@)
            } else {
                match key {
                    Value::String(name) => if !m.heap.holds_string(name) {
                        failure == Some("Not a valid key"@)
                    } else {
                        exists|mid: HeapManager, stored: bool| #[trigger]
                            m.heap.item_stored_by_name(mid, arr, name, value, stored) && if stored {
                                failure is None && after == Machine { heap: mid, ..rest }
                            } else {
                                failure == Some("Index out of range"@)
                            }
                    },
                    Value::Number(bits) => exists|mid: HeapManager, stored: bool| #[trigger]
                        m.heap.item_stored(mid, arr, spec_to_index(bits), value, stored)
                            && if stored {
                            failure is None && after == Machine { heap: mid, ..rest }
                        } else {
                            failure == Some("Index out of range"@)
                        },
                    _ => failure == Some("Not a valid key"@),
                }
            },
            _ => failure == Some("Not an indexable object"@),
        }
    }
}

/// The value of an entry and then its key, which, in reverse, are the items
/// of the array that stands for the entry.
pub open spec fn entry_pair(entry: HashEntry) -> Seq<Value> {
    seq![entry.value, Value::String(entry.key)]
}

/// The builtin that gives what a collection holds at an index: the item of
/// an array, or, of an object, a new array of the key and the value of the
/// entry.
pub open spec fn iterable_step(m: Machine, after: Machine, failure: Option<Seq<char>>) -> bool {
    if !can_pop(m) || !can_pop(pop(m)) {
        failure == Some("Stack underflow"@)
    } else {
        let rest = pop(pop(m));
        match top(m) {
            Value::Number(bits) => {
                let index = spec_to_index(bits);
                match top(pop(m)) {
                    Value::Array(arr) => if !m.heap.holds_array(arr) {
                        failure == Some("Type of object is not iterable"@)
                    } else if index >= m.heap.array_items(arr).len() {
                        failure == Some("List index out of range"@)
                    } else {
                        failure is None && after == push(rest, m.heap.array_items(arr)[index as int])
                    },
                    Value::Object(obj) => if !m.heap.holds_object(obj) {
                        failure == Some("Type of object is not iterable"@)
                    } else if index >= m.heap.object_entries(obj).len() {
                        failure == Some("List index out of range"@)
                    } else {
                        let entry = m.heap.object_entries(obj)[index as int];
                        let pair = entry_pair(entry);
                        exists|mid: HeapManager, result: Result<Ptr, HeapError>| #[trigger]
                            m.heap.array_allocated(mid, pair, result) && allocation_ends(
                                rest,
                                mid,
                                result,
                                Type::Array,
                                false,
                                after,
                                failure,
                            )
                    },
                    _ => failure == Some("Type of object is not iterable"@),
                }
            },
            _ => failure == Some("Expected number as second argument"@),
        }
    }
}

/// The instruction at which the machine stands, where it asks the heap for
/// nothing: the machine after it, or the error.
pub open spec fn instruction(m: Machine) -> Option<Turn> {
    let op = m.code[m.ip as int];
    if op == OP_PUSH {
        Some(push_step(m))
    } else if op == OP_JUMP {
        Some(jump_step(m, false))
    } else if op == OP_JUMP_IF_FALSE {
        Some(jump_step(m, true))
    } else if op == OP_ADD {
        if can_pop(m) && can_pop(pop(m)) && (top(m) is String || top(m) is Object) {
            None
        } else {
            Some(arithmetic_step(m, op))
        }
    } else if op == OP_SUB || op == OP_MUL || op == OP_DIV || op == OP_POW {
        Some(arithmetic_step(m, op))
    } else if op == OP_EQ {
        Some(equality_step(m, false))
    } else if op == OP_NE {
        Some(equality_step(m, true))
    } else if op == OP_AND || op == OP_OR {
        Some(logic_step(m, op))
    } else if op == OP_GE || op == OP_GR || op == OP_LE || op == OP_LS {
        Some(comparison_step(m, op))
    } else if op == OP_UNARY_NOT || op == OP_UNARY_SUB {
        Some(unary_step(m, op))
    } else if op == OP_POP {
        Some(pop_step(m))
    } else if op == OP_DECLARE {
        Some(Ok(advance(push(m, Value::Null), 1)))
    } else if op == OP_DECLARE_GLOBAL {
        Some(global_step(m, false))
    } else if op == OP_SET_GLOBAL {
        Some(global_step(m, true))
    } else if op == OP_PRINT {
        Some(print_step(m))
    } else if op == OP_SET {
        Some(set_step(m))
    } else if op == OP_RETURN {
        Some(return_step(m))
    } else if op == OP_END_FUNCTION {
        Some(end_function_step(m))
    } else if op == OP_ACCESS {
        Some(access_step(m))
    } else if op == OP_CALL {
        if !can_pop(m) {
            Some(fail("Stack underflow"))
        } else {
            match top(m) {
                Value::Function(FunctionValue::UserDefined(target, arity)) => Some(
                    enter_function(pop(m), target, arity),
                ),
                Value::Function(FunctionValue::Builtin(id)) => if id == BUILTIN_ITERABLE_GET {
                    None
                } else {
                    Some(builtin_step(advance(pop(m), 1), id))
                },
                _ => Some(fail("Wrong architecture")),
            }
        }
    } else if op == OP_ALLOCATE || op == OP_ALLOCATE_ARRAY || op == OP_SET_PROPERTY {
        None
    } else {
        Some(fail("Unknown instruction"))
    }
}

/// The instruction at which the machine stands, where it asks the heap for
/// a block or writes into one.
pub open spec fn allocating(m: Machine, after: Machine, failure: Option<Seq<char>>) -> bool {
    let op = m.code[m.ip as int];
    if op == OP_ADD {
        concat_step(m, after, failure)
    } else if op == OP_ALLOCATE {
        allocate_step(m, after, failure)
    } else if op == OP_ALLOCATE_ARRAY {
        allocate_array_step(m, after, failure)
    } else if op == OP_SET_PROPERTY {
        set_property_step(m, after, failure)
    } else {
        iterable_step(advance(pop(m), 1), after, failure)
    }
}

/// The values that a call leaves below its frame: the stack of the caller
/// without the arguments.
pub open spec fn below_frame(caller: Machine, arity: u8) -> Seq<Value> {
    caller.stack.subrange(0, caller.stack.len() - arity)
}

/// True when a machine stands in the frame that a call opened, with the
/// three slots that the call pushed as the call left them, but that the
/// slot of the result holds `result`, and with the stack below them
/// untouched.
pub open spec fn in_frame_of(
    caller: Machine,
    arity: u8,
    inside: Machine,
    result: Value,
) -> bool {
    let rest = below_frame(caller, arity);
    &&& inside.offset == rest.len() + 2
    &&& inside.stack.len() > inside.offset
    &&& inside.stack.subrange(0, rest.len() as int) == rest
    &&& inside.stack[rest.len() as int] == result
    &&& inside.stack[(rest.len() + 1) as int] == Value::Number(index_pattern((caller.ip + 1) as nat))
    &&& inside.stack[(rest.len() + 2) as int] == Value::Number(index_pattern(caller.offset as nat))
}

/// A call opens a frame whose slot for the result holds null.
pub proof fn lemma_call_opens_frame(caller: Machine, target: u32, arity: u8)
    requires
        enter_function(caller, target, arity) is Ok,
        caller.stack.len() + 3 <= usize::MAX,
    ensures
        in_frame_of(caller, arity, enter_function(caller, target, arity)->Ok_0, Value::Null),
        enter_function(caller, target, arity)->Ok_0.ip == target,
{
    let rest = below_frame(caller, arity);
    let args = caller.stack.subrange(caller.stack.len() - arity, caller.stack.len() as int);
    let pushed = seq![
        Value::Null,
        Value::Number(index_pattern((caller.ip + 1) as nat)),
        Value::Number(index_pattern(caller.offset as nat)),
    ];
    let entered = enter_function(caller, target, arity)->Ok_0;
    assert(entered.stack == rest + pushed + args);
    assert(entered.stack.subrange(0, rest.len() as int) =~= rest);
    assert(entered.stack[rest.len() as int] == pushed[0]);
    assert(entered.stack[(rest.len() + 1) as int] == pushed[1]);
    assert(entered.stack[(rest.len() + 2) as int] == pushed[2]);
}

/// A return in a frame writes the value on top into the slot of the result
/// and leaves the rest of the frame's three slots, and what lies below
/// them, as they were.
pub proof fn lemma_return_keeps_frame(caller: Machine, arity: u8, inside: Machine, result: Value)
    requires
        in_frame_of(caller, arity, inside, result),
        inside.stack.len() > inside.offset + 1,
    ensures
        return_step(inside) is Ok,
        in_frame_of(caller, arity, return_step(inside)->Ok_0, top(inside)),
{
    let rest = below_frame(caller, arity);
    let after = return_step(inside)->Ok_0;
    assert(after.stack.subrange(0, rest.len() as int) =~= rest);
}

/// Frame balance: where a function ends in the frame that its call opened,
/// the stack holds what it held below the arguments before the call and,
/// on top, one value more: the value that a return wrote, or null where
/// none did. The caller's frame and place are restored.
pub proof fn lemma_frame_balance(caller: Machine, arity: u8, inside: Machine, result: Value)
    requires
        caller.offset + arity <= caller.stack.len(),
        caller.ip + 1 < EXACT_LIMIT,
        caller.offset < EXACT_LIMIT,
        in_frame_of(caller, arity, inside, result),
    ensures
        end_function_step(inside) is Ok,
        end_function_step(inside)->Ok_0.stack == below_frame(caller, arity).push(result),
        end_function_step(inside)->Ok_0.stack.len() == caller.stack.len() - arity + 1,
        end_function_step(inside)->Ok_0.offset == caller.offset,
        end_function_step(inside)->Ok_0.ip == caller.ip + 1,
{
    let rest = below_frame(caller, arity);
    crate::number::lemma_index_pattern((caller.ip + 1) as usize);
    crate::number::lemma_index_pattern(caller.offset);
    let after = end_function_step(inside)->Ok_0;
    assert(inside.stack.subrange(0, inside.offset - 1) =~= rest.push(result)) by {
        assert forall|i: int| 0 <= i < rest.len() implies inside.stack[i] == rest[i] by {
            assert(inside.stack.subrange(0, rest.len() as int)[i] == rest[i]);
        }
    }
}

} // verus!
