use vstd::prelude::*;
use crate::builtins::{
    BUILTIN_ATOI, BUILTIN_INPUT, BUILTIN_ITERABLE_GET, BUILTIN_LEN, BUILTIN_SLEEP,
};
use crate::bytecode::{
    slot_from_bytes, spec_slot_at, Bytecode, OP_ACCESS, OP_ADD, OP_ALLOCATE, OP_ALLOCATE_ARRAY,
    OP_AND, OP_CALL, OP_DECLARE, OP_DECLARE_GLOBAL, OP_DIV, OP_END_FUNCTION, OP_EQ, OP_GE, OP_GET,
    OP_GET_GLOBAL, OP_GR, OP_JUMP, OP_JUMP_IF_FALSE, OP_LE, OP_LS, OP_MUL, OP_NE, OP_OR, OP_POP,
    OP_POW, OP_PRINT, OP_PUSH, OP_RETURN, OP_SET, OP_SET_GLOBAL, OP_SET_PROPERTY, OP_SUB,
    OP_UNARY_NOT, OP_UNARY_SUB,
};
use crate::bytes::read_number;
use crate::errors::RuntimeError;
use crate::gc::{collected, crowded, kept, GC};
use crate::heap::{CellKind, HeapError, HeapManager};
use crate::machine::{
    access_step, advance, allocate_array_step, allocate_step, allocating, allocation_ends,
    arithmetic_step, below, builtin_step, can_pop, comparison_step, concat_step, end_function_step,
    enter_function, entry_pair, equality_step, global_step, has_operands, instruction,
    iterable_step, jump_step, keys_below, logic_step, pop, pop_step, popped_pairs, popped_values,
    print_step, push, push_constant, push_step, return_step, roots, set_property_step, set_step,
    store_global, swept_after, target_at, top, unary_step, values_equal, Demand, Machine, NumberOp,
    Turn,
};
use crate::runtime_context::RuntimeContext;
use crate::number::{equal, from_index, from_le_bytes, integral, less, negate, to_index};
use crate::output::{parts, render, Part, Piece};
use crate::stack::Stack;
use crate::types::Type;
use crate::value::{FunctionValue, Ptr, Value};

verus! {

/// What the machine asks of its host before it goes on.
#[derive(Debug)]
pub enum Request {
    /// The result of an operation on two numbers, the left and the right.
    Arithmetic(NumberOp, u32, u32),
    /// The number that the bytes of a text spell.
    ParseNumber(Vec<u8>),
    /// To wait for so many seconds.
    Sleep(u64),
    /// A line of input.
    Input,
}

impl Request {
    pub open spec fn view(&self) -> Demand {
        match *self {
            Request::Arithmetic(op, left, right) => Demand::Arithmetic(op, left, right),
            Request::ParseNumber(bytes) => Demand::ParseNumber(bytes@),
            Request::Sleep(seconds) => Demand::Sleep(seconds),
            Request::Input => Demand::Input,
        }
    }
}

/// What the host answers.
#[derive(Debug)]
pub enum Answer {
    /// The number that was asked for.
    Number(u32),
    /// The text spells no number.
    NotANumber,
    /// The wait is over.
    Done,
    /// The line that was read.
    Line(String),
}

/// How the machine stands after a step.
#[derive(Clone, Copy, Debug, PartialEq, Eq, Structural)]
pub enum Status {
    /// It can take another step.
    Running,
    /// It has come to the end of the code.
    Finished,
    /// It waits for the answer to its request.
    Waiting,
}

/// The machine: the code, the operand stack, the globals, the collector
/// with the heap, the lines printed so far.
#[derive(Debug)]
pub struct VM {
    pub code: Vec<Bytecode>,
    pub execution_stack: Stack,
    pub ip: usize,
    pub globals: Vec<Option<Value>>,
    pub gc: GC,
    pub output: Vec<Vec<Piece>>,
    pub pending: Option<Request>,
}

/// What printed lines hold.
pub open spec fn lines(output: Seq<Vec<Piece>>) -> Seq<Seq<Part>> {
    Seq::new(output.len(), |i: int| parts(output[i]@))
}

/// True when an instruction ended as the turn says: the machine is in the
/// state of the turn, or the error has the message of the turn.
pub open spec fn agrees(r: Result<(), RuntimeError>, after: Machine, turn: Turn) -> bool {
    match turn {
        Ok(m) => r is Ok && after == m,
        Err(message) => r matches Err(e) && e.message@ == message,
    }
}

impl VM {
    pub open spec fn view(&self) -> Machine {
        Machine {
            code: self.code@,
            ip: self.ip,
            stack: self.execution_stack@,
            offset: self.execution_stack.offset,
            globals: self.globals@,
            heap: self.gc.heap_manager,
            output: lines(self.output@),
            pending: match self.pending {
                Some(request) => Some(request@),
                None => None,
            },
        }
    }

    pub open spec fn wf(&self) -> bool {
        &&& self.gc.heap_manager.wf()
        &&& self.execution_stack.wf()
    }

    pub fn new(code: Vec<Bytecode>, execution_stack: Stack, globals: Vec<Option<Value>>, gc: GC) -> (vm:
        Self)
        ensures
            vm.code == code,
            vm.execution_stack == execution_stack,
            vm.globals == globals,
            vm.gc == gc,
            vm.ip == 0,
            vm.output@.len() == 0,
            vm.pending.is_none(),
    {
        Self { code, execution_stack, ip: 0usize, globals, gc, output: Vec::new(), pending: None }
    }

    fn is_at_end(&self) -> (r: bool)
        ensures
            r == (self.ip == self.code.len()),
    {
        self.ip == self.code.len()
    }

    fn operands(&self, n: usize) -> (r: bool)
        requires
            self.ip < self.code.len(),
        ensures
            r == has_operands(self@, n as int),
    {
        n < self.code.len() - self.ip
    }

    fn read_target(&self, at: usize) -> (target: usize)
        requires
            at + 4 <= self.code.len(),
        ensures
            target == target_at(self.code@, at as int),
    {
        let bytes = [self.code[at], self.code[at + 1], self.code[at + 2], self.code[at + 3]];
        assert(bytes@ =~= self.code@.subrange(at as int, at + 4));
        to_index(from_le_bytes(bytes))
    }

    /// The slot of a global, from its two bytes at `at`.
    pub fn read_global(&self, at: usize) -> (slot: u16)
        requires
            at + 2 <= self.code.len(),
        ensures
            slot == spec_slot_at(self.code@, at as int),
    {
        slot_from_bytes(self.code[at], self.code[at + 1])
    }

    fn pop_value(&mut self) -> (value: Option<Value>)
        requires
            old(self).execution_stack.wf(),
        ensures
            final(self).execution_stack.wf(),
            final(self).code == old(self).code,
            final(self).ip == old(self).ip,
            final(self).globals == old(self).globals,
            final(self).gc == old(self).gc,
            final(self).output == old(self).output,
            final(self).pending == old(self).pending,
            !can_pop(old(self)@) ==> value.is_none() && final(self)@ == old(self)@,
            can_pop(old(self)@) ==> value == Some(top(old(self)@)) && final(self)@ == pop(old(self)@),
    {
        self.execution_stack.pop()
    }

    fn push_value(&mut self, value: Value)
        requires
            old(self).execution_stack.wf(),
        ensures
            final(self).execution_stack.wf(),
            final(self).code == old(self).code,
            final(self).ip == old(self).ip,
            final(self).globals == old(self).globals,
            final(self).gc == old(self).gc,
            final(self).output == old(self).output,
            final(self).pending == old(self).pending,
            final(self)@ == push(old(self)@, value),
    {
        self.execution_stack.push(value);
    }

    /// The constant that stands after a push.
    fn read_constant(&mut self) -> (r: Result<(), RuntimeError>)
        requires
            old(self).wf(),
            old(self).ip + 1 < old(self).code.len(),
        ensures
            final(self).wf(),
            agrees(r, final(self)@, push_constant(old(self)@)),
    {
        let at = self.ip;
        match Type::from_byte(self.code[at + 1]) {
            Some(Type::Null) => {
                self.push_value(Value::Null);
                self.ip = at + 2;
                Ok(())
            },
            Some(Type::Boolean) => {
                if !self.operands(2) {
                    return Err(RuntimeError::new("Unexpected end of code"));
                }
                let val = self.code[at + 2];
                self.push_value(Value::Bool(val == 1));
                self.ip = at + 3;
                Ok(())
            },
            Some(Type::Number) => {
                if !self.operands(5) {
                    return Err(RuntimeError::new("Unexpected end of code"));
                }
                let bytes = [
                    self.code[at + 2],
                    self.code[at + 3],
                    self.code[at + 4],
                    self.code[at + 5],
                ];
                assert(bytes@ =~= self.code@.subrange(at + 2, at + 6));
                self.push_value(Value::Number(from_le_bytes(bytes)));
                self.ip = at + 6;
                Ok(())
            },
            Some(Type::Function) => {
                if !self.operands(6) {
                    return Err(RuntimeError::new("Unexpected end of code"));
                }
                let target = self.read_target(at + 2);
                if target > u32::MAX as usize {
                    return Err(RuntimeError::new("Not a type"));
                }
                let arity = self.code[at + 6];
                self.push_value(Value::Function(FunctionValue::UserDefined(target as u32, arity)));
                self.ip = at + 7;
                Ok(())
            },
            Some(Type::String) => {
                if !self.operands(9) {
                    return Err(RuntimeError::new("Unexpected end of code"));
                }
                let ptr = read_number(&self.code, at + 2);
                self.push_value(Value::String(ptr));
                self.ip = at + 10;
                Ok(())
            },
            _ => Err(RuntimeError::new("Not a type")),
        }
    }

    fn op_push(&mut self) -> (r: Result<(), RuntimeError>)
        requires
            old(self).wf(),
            old(self).ip < old(self).code.len(),
        ensures
            final(self).wf(),
            agrees(r, final(self)@, push_step(old(self)@)),
    {
        if !self.operands(1) {
            return Err(RuntimeError::new("Unexpected end of code"));
        }
        let at = self.ip;
        if self.code[at + 1] == OP_GET {
            if !self.operands(2) {
                return Err(RuntimeError::new("Unexpected end of code"));
            }
            let var_key = self.code[at + 2] as usize;
            match self.execution_stack.get(var_key) {
                None => Err(RuntimeError::new("Variable doesn't exist")),
                Some(value) => {
                    self.push_value(value);
                    self.ip = at + 3;
                    Ok(())
                },
            }
        } else if self.code[at + 1] == OP_GET_GLOBAL {
            if !self.operands(3) {
                return Err(RuntimeError::new("Unexpected end of code"));
            }
            let var_key = self.read_global(at + 2) as usize;
            if var_key >= self.globals.len() {
                return Err(RuntimeError::new("Variable doesn't exist"));
            }
            match self.globals[var_key] {
                None => Err(RuntimeError::new("Variable doesn't exist")),
                Some(value) => {
                    self.push_value(value);
                    self.ip = at + 4;
                    Ok(())
                },
            }
        } else {
            self.read_constant()
        }
    }

    fn op_jump(&mut self, conditional: bool) -> (r: Result<(), RuntimeError>)
        requires
            old(self).wf(),
            old(self).ip < old(self).code.len(),
        ensures
            final(self).wf(),
            agrees(r, final(self)@, jump_step(old(self)@, conditional)),
    {
        if !self.operands(4) {
            return Err(RuntimeError::new("Unexpected end of code"));
        }
        let at = self.ip;
        let num = self.read_target(at + 1);
        if !conditional {
            self.ip = num;
            return Ok(());
        }
        match self.pop_value() {
            None => Err(RuntimeError::new("Stack underflow")),
            Some(val) => {
                if val == Value::Bool(false) {
                    self.ip = num;
                } else {
                    self.ip = at + 5;
                }
                Ok(())
            },
        }
    }

    /// Pops the right operand and then the left.
    fn pop_operands(&mut self) -> (operands: Option<(Value, Value)>)
        requires
            old(self).wf(),
        ensures
            final(self).wf(),
            final(self).code == old(self).code,
            final(self).ip == old(self).ip,
            final(self).globals == old(self).globals,
            final(self).gc == old(self).gc,
            final(self).output == old(self).output,
            final(self).pending == old(self).pending,
            operands.is_none() <==> (!can_pop(old(self)@) || !can_pop(pop(old(self)@))),
            operands matches Some(pair) ==> pair.0 == top(pop(old(self)@)) && pair.1 == top(
                old(self)@,
            ) && final(self)@ == pop(pop(old(self)@)),
    {
        let right = match self.pop_value() {
            None => {
                return None;
            },
            Some(value) => value,
        };
        let left = match self.pop_value() {
            None => {
                return None;
            },
            Some(value) => value,
        };
        Some((left, right))
    }

    fn op_arithmetic(&mut self, op: u8) -> (r: Result<(), RuntimeError>)
        requires
            old(self).wf(),
            old(self).ip < old(self).code.len(),
            old(self).pending.is_none(),
            op == OP_ADD || op == OP_SUB || op == OP_MUL || op == OP_DIV || op == OP_POW,
        ensures
            final(self).wf(),
            agrees(r, final(self)@, arithmetic_step(old(self)@, op)),
    {
        let (left, right) = match self.pop_operands() {
            None => {
                return Err(RuntimeError::new("Stack underflow"));
            },
            Some(pair) => pair,
        };
        match (left, right) {
            (Value::Number(num2), Value::Number(num1)) => {
                if op == OP_POW && !integral(num1) {
                    return Err(RuntimeError::new("Pow being a float number is not supported"));
                }
                let kind = if op == OP_ADD {
                    NumberOp::Add
                } else if op == OP_SUB {
                    NumberOp::Sub
                } else if op == OP_MUL {
                    NumberOp::Mul
                } else if op == OP_DIV {
                    NumberOp::Div
                } else {
                    NumberOp::Pow
                };
                self.ip = self.ip + 1;
                self.pending = Some(Request::Arithmetic(kind, num2, num1));
                Ok(())
            },
            _ => Err(RuntimeError::new("Arithmetic on anything but numbers is not supported")),
        }
    }

    fn equals(a: Value, b: Value) -> (r: bool)
        ensures
            r == values_equal(a, b),
    {
        match (a, b) {
            (Value::Number(x), Value::Number(y)) => equal(x, y),
            (Value::Bool(x), Value::Bool(y)) => x == y,
            (Value::Null, Value::Null) => true,
            (Value::String(x), Value::String(y)) => crate::heap::HeapManager::compare_strings(x, y),
            (Value::Object(x), Value::Object(y)) => crate::heap::HeapManager::compare_objects(x, y),
            (Value::Array(x), Value::Array(y)) => crate::heap::HeapManager::compare_objects(x, y),
            (
                Value::Function(FunctionValue::UserDefined(x, _)),
                Value::Function(FunctionValue::UserDefined(y, _)),
            ) => x == y,
            (
                Value::Function(FunctionValue::Builtin(x)),
                Value::Function(FunctionValue::Builtin(y)),
            ) => x == y,
            _ => false,
        }
    }

    fn op_equality(&mut self, negated: bool) -> (r: Result<(), RuntimeError>)
        requires
            old(self).wf(),
            old(self).ip < old(self).code.len(),
        ensures
            final(self).wf(),
            agrees(r, final(self)@, equality_step(old(self)@, negated)),
    {
        let (left, right) = match self.pop_operands() {
            None => {
                return Err(RuntimeError::new("Stack underflow"));
            },
            Some(pair) => pair,
        };
        self.push_value(Value::Bool(Self::equals(right, left) != negated));
        self.ip = self.ip + 1;
        Ok(())
    }

    fn op_comparison(&mut self, op: u8) -> (r: Result<(), RuntimeError>)
        requires
            old(self).wf(),
            old(self).ip < old(self).code.len(),
        ensures
            final(self).wf(),
            agrees(r, final(self)@, comparison_step(old(self)@, op)),
    {
        let (left, right) = match self.pop_operands() {
            None => {
                return Err(RuntimeError::new("Stack underflow"));
            },
            Some(pair) => pair,
        };
        match (left, right) {
            (Value::Number(val2), Value::Number(val1)) => {
                let result = if op == OP_GE {
                    less(val1, val2) || equal(val2, val1)
                } else if op == OP_GR {
                    less(val1, val2)
                } else if op == OP_LE {
                    less(val2, val1) || equal(val2, val1)
                } else {
                    less(val2, val1)
                };
                self.push_value(Value::Bool(result));
                self.ip = self.ip + 1;
                Ok(())
            },
            _ => Err(
                RuntimeError::new("Comparison of anything but numbers variables not supported"),
            ),
        }
    }

    fn op_logic(&mut self, op: u8) -> (r: Result<(), RuntimeError>)
        requires
            old(self).wf(),
            old(self).ip < old(self).code.len(),
        ensures
            final(self).wf(),
            agrees(r, final(self)@, logic_step(old(self)@, op)),
    {
        let (left, right) = match self.pop_operands() {
            None => {
                return Err(RuntimeError::new("Stack underflow"));
            },
            Some(pair) => pair,
        };
        match (left, right) {
            (Value::Bool(val2), Value::Bool(val1)) => {
                let result = if op == OP_AND {
                    val2 && val1
                } else {
                    val2 || val1
                };
                self.push_value(Value::Bool(result));
                self.ip = self.ip + 1;
                Ok(())
            },
            _ => Err(RuntimeError::new("And of anything but boolean variables not supported")),
        }
    }

    fn op_unary(&mut self, op: u8) -> (r: Result<(), RuntimeError>)
        requires
            old(self).wf(),
            old(self).ip < old(self).code.len(),
        ensures
            final(self).wf(),
            agrees(r, final(self)@, unary_step(old(self)@, op)),
    {
        let val1 = match self.pop_value() {
            None => {
                return Err(RuntimeError::new("Stack underflow"));
            },
            Some(value) => value,
        };
        if op == OP_UNARY_NOT {
            match val1 {
                Value::Bool(val1) => {
                    self.push_value(Value::Bool(!val1));
                },
                _ => {
                    return Err(RuntimeError::new("Notting a non-boolean value is not allowed"));
                },
            }
        } else {
            match val1 {
                Value::Number(val1) => {
                    self.push_value(Value::Number(negate(val1)));
                },
                _ => {
                    return Err(RuntimeError::new("Minusing a non-number value is not allowed"));
                },
            }
        }
        self.ip = self.ip + 1;
        Ok(())
    }

    fn op_pop(&mut self) -> (r: Result<(), RuntimeError>)
        requires
            old(self).wf(),
            old(self).ip < old(self).code.len(),
        ensures
            final(self).wf(),
            agrees(r, final(self)@, pop_step(old(self)@)),
    {
        self.pop_value();
        self.ip = self.ip + 1;
        Ok(())
    }

    fn op_declare(&mut self) -> (r: Result<(), RuntimeError>)
        requires
            old(self).wf(),
            old(self).ip < old(self).code.len(),
        ensures
            final(self).wf(),
            agrees(r, final(self)@, Ok::<Machine, Seq<char>>(advance(push(old(self)@, Value::Null), 1))),
    {
        self.push_value(Value::Null);
        self.ip = self.ip + 1;
        Ok(())
    }

    fn set_global(&mut self, slot: u16, value: Value)
        ensures
            final(self).globals@ == store_global(old(self).globals@, slot, value),
            final(self).code == old(self).code,
            final(self).ip == old(self).ip,
            final(self).execution_stack == old(self).execution_stack,
            final(self).gc == old(self).gc,
            final(self).output == old(self).output,
            final(self).pending == old(self).pending,
    {
        let at = slot as usize;
        while self.globals.len() <= at
            invariant
                at == slot,
                self.globals.len() >= old(self).globals.len(),
                forall|i: int| 0 <= i < old(self).globals.len() ==> self.globals[i] == old(
                    self,
                ).globals[i],
                forall|i: int|
                    old(self).globals.len() <= i < self.globals.len() ==> self.globals[i].is_none(),
                self.globals.len() <= at + 1 || self.globals.len() == old(self).globals.len(),
                self.code == old(self).code,
                self.ip == old(self).ip,
                self.execution_stack == old(self).execution_stack,
                self.gc == old(self).gc,
                self.output == old(self).output,
                self.pending == old(self).pending,
            decreases at + 1 - self.globals.len(),
        {
            self.globals.push(None);
        }
        self.globals[at] = Some(value);
        assert(self.globals@ =~= store_global(old(self).globals@, slot, value));
    }

    fn op_global(&mut self, keep: bool) -> (r: Result<(), RuntimeError>)
        requires
            old(self).wf(),
            old(self).ip < old(self).code.len(),
        ensures
            final(self).wf(),
            agrees(r, final(self)@, global_step(old(self)@, keep)),
    {
        if !self.operands(2) {
            return Err(RuntimeError::new("Unexpected end of code"));
        }
        let at = self.ip;
        let var_key = self.read_global(at + 1);
        let val = match self.pop_value() {
            None => {
                return Err(RuntimeError::new("Stack underflow"));
            },
            Some(value) => value,
        };
        if keep {
            self.push_value(val);
            assert(self.execution_stack@ =~= old(self).execution_stack@);
        }
        self.set_global(var_key, val);
        self.ip = at + 3;
        Ok(())
    }

    fn op_print(&mut self) -> (r: Result<(), RuntimeError>)
        requires
            old(self).wf(),
            old(self).ip < old(self).code.len(),
        ensures
            final(self).wf(),
            agrees(r, final(self)@, print_step(old(self)@)),
    {
        let val = match self.pop_value() {
            None => {
                return Err(RuntimeError::new("Stack underflow"));
            },
            Some(value) => value,
        };
        let line = render(&self.gc.heap_manager, val, self.gc.heap_manager.memory.len());
        let ghost shown = parts(line@);
        self.output.push(line);
        assert(lines(self.output@) =~= lines(old(self).output@).push(shown));
        self.ip = self.ip + 1;
        Ok(())
    }

    fn op_set(&mut self) -> (r: Result<(), RuntimeError>)
        requires
            old(self).wf(),
            old(self).ip < old(self).code.len(),
        ensures
            final(self).wf(),
            agrees(r, final(self)@, set_step(old(self)@)),
    {
        if !self.operands(1) {
            return Err(RuntimeError::new("Unexpected end of code"));
        }
        let at = self.ip;
        let val = match self.pop_value() {
            None => {
                return Err(RuntimeError::new("Stack underflow"));
            },
            Some(value) => value,
        };
        let var = self.code[at + 1];
        self.push_value(val);
        assert(self.execution_stack@ =~= old(self).execution_stack@);
        if !self.execution_stack.reaches(var as i32) {
            return Err(RuntimeError::new("Variable doesn't exist"));
        }
        self.execution_stack.set(var as i32, val);
        self.ip = at + 2;
        Ok(())
    }

    fn op_return(&mut self) -> (r: Result<(), RuntimeError>)
        requires
            old(self).wf(),
            old(self).ip < old(self).code.len(),
        ensures
            final(self).wf(),
            agrees(r, final(self)@, return_step(old(self)@)),
    {
        let val = match self.pop_value() {
            None => {
                return Err(RuntimeError::new("Stack underflow"));
            },
            Some(value) => value,
        };
        if !self.execution_stack.reaches(-2) {
            return Err(RuntimeError::new("Cannot return outside function"));
        }
        self.execution_stack.set(-2, val);
        self.ip = self.ip + 1;
        Ok(())
    }

    /// The number of values of the current frame.
    fn available(&self) -> (n: usize)
        requires
            self.execution_stack.wf(),
        ensures
            n == self@.stack.len() - self@.offset,
    {
        self.execution_stack.real_len() - self.execution_stack.offset
    }

    /// The value that stands `i` below the top of the stack.
    fn peek(&self, i: usize) -> (value: Value)
        requires
            i < self@.stack.len(),
        ensures
            value == below(self@.stack, i as int),
    {
        self.execution_stack.elements[self.execution_stack.elements.len() - 1 - i]
    }

    /// Cuts `n` values off the stack.
    fn drop_values(&mut self, n: usize)
        requires
            old(self).execution_stack.wf(),
            n <= old(self)@.stack.len() - old(self)@.offset,
        ensures
            final(self).execution_stack.wf(),
            final(self).code == old(self).code,
            final(self).ip == old(self).ip,
            final(self).globals == old(self).globals,
            final(self).gc == old(self).gc,
            final(self).output == old(self).output,
            final(self).pending == old(self).pending,
            final(self)@ == (Machine {
                stack: old(self)@.stack.subrange(0, old(self)@.stack.len() - n),
                ..old(self)@
            }),
    {
        let keep = self.available() - n;
        self.execution_stack.reset_to(keep);
    }

    fn enter_function(&mut self, target: u32, arity: u8) -> (r: Result<(), RuntimeError>)
        requires
            old(self).wf(),
        ensures
            final(self).wf(),
            agrees(r, final(self)@, enter_function(old(self)@, target, arity)),
    {
        let count = arity as usize;
        if self.available() < count {
            return Err(RuntimeError::new("Stack underflow"));
        }
        if self.ip == usize::MAX {
            return Err(RuntimeError::new("Stack overflow"));
        }
        let place = match from_index(self.ip + 1) {
            None => {
                return Err(RuntimeError::new("Stack overflow"));
            },
            Some(bits) => bits,
        };
        let base = match from_index(self.execution_stack.offset) {
            None => {
                return Err(RuntimeError::new("Stack overflow"));
            },
            Some(bits) => bits,
        };
        let len = self.execution_stack.real_len();
        let mut args: Vec<Value> = Vec::new();
        let mut i: usize = 0;
        while i < count
            invariant
                i <= count,
                count <= len,
                len == self.execution_stack@.len(),
                args@ == self.execution_stack@.subrange(len - count, len - count + i),
            decreases count - i,
        {
            args.push(self.execution_stack.elements[len - count + i]);
            i = i + 1;
            assert(args@ =~= self.execution_stack@.subrange(len - count, len - count + i));
        }
        self.drop_values(count);
        let ghost rest = self.execution_stack@;
        self.execution_stack.push(Value::Null);
        self.execution_stack.push(Value::Number(place));
        self.execution_stack.offset = self.execution_stack.real_len();
        self.execution_stack.push(Value::Number(base));
        let ghost framed = self.execution_stack@;
        let mut j: usize = 0;
        while j < count
            invariant
                j <= count,
                args.len() == count,
                self.execution_stack@ == framed + args@.subrange(0, j as int),
                self.execution_stack.offset == rest.len() + 2,
                framed.len() == rest.len() + 3,
                self.code == old(self).code,
                self.ip == old(self).ip,
                self.globals == old(self).globals,
                self.gc == old(self).gc,
                self.output == old(self).output,
                self.pending == old(self).pending,
            decreases count - j,
        {
            self.execution_stack.push(args[j]);
            j = j + 1;
            assert(self.execution_stack@ =~= framed + args@.subrange(0, j as int));
        }
        self.ip = target as usize;
        proof {
            assert(args@.subrange(0, j as int) =~= args@);
            assert(framed =~= rest + seq![Value::Null, Value::Number(place), Value::Number(base)]);
        }
        Ok(())
    }

    /// The builtin functions that need no new block of the heap.
    fn builtin(&mut self, id: u16) -> (r: Result<(), RuntimeError>)
        requires
            old(self).wf(),
            old(self).pending.is_none(),
        ensures
            final(self).wf(),
            agrees(r, final(self)@, builtin_step(old(self)@, id)),
    {
        if id == BUILTIN_LEN {
            let collection = match self.pop_value() {
                None => {
                    return Err(RuntimeError::new("Stack underflow"));
                },
                Some(value) => value,
            };
            let count = match collection {
                Value::Array(arr) => {
                    if !self.gc.heap_manager.is_array(arr) {
                        return Err(
                            RuntimeError::new("Object is not a collection to have a length"),
                        );
                    }
                    self.gc.heap_manager.get_array_count(arr)
                },
                Value::Object(obj) => {
                    if !self.gc.heap_manager.is_object(obj) {
                        return Err(
                            RuntimeError::new("Object is not a collection to have a length"),
                        );
                    }
                    self.gc.heap_manager.get_object_count(obj)
                },
                _ => {
                    return Err(RuntimeError::new("Object is not a collection to have a length"));
                },
            };
            proof {
                match collection {
                    Value::Array(arr) => {
                        assert(self.gc.heap_manager.memory[arr - 1].wf());
                    },
                    Value::Object(obj) => {
                        assert(self.gc.heap_manager.memory[obj - 1].wf());
                        crate::hash_table::lemma_live_count_bounds(
                            crate::hash_table::slots_of(self.gc.heap_manager.cell(obj).bytes@),
                            crate::hash_table::TABLE_SIZE as int,
                        );
                    },
                    _ => {},
                }
            }
            match from_index(count) {
                None => Err(RuntimeError::new("Object is not a collection to have a length")),
                Some(bits) => {
                    self.push_value(Value::Number(bits));
                    Ok(())
                },
            }
        } else if id == BUILTIN_SLEEP {
            match self.pop_value() {
                None => Err(RuntimeError::new("Stack underflow")),
                Some(Value::Number(num)) => {
                    self.pending = Some(Request::Sleep(to_index(num) as u64));
                    Ok(())
                },
                Some(_) => Err(RuntimeError::new("Wrong argument to sleep function")),
            }
        } else if id == BUILTIN_INPUT {
            self.pending = Some(Request::Input);
            Ok(())
        } else if id == BUILTIN_ATOI {
            match self.pop_value() {
                None => Err(RuntimeError::new("Stack underflow")),
                Some(Value::String(num_as_str)) => {
                    if !self.gc.heap_manager.is_string(num_as_str) {
                        return Err(RuntimeError::new("Argument is not a stringified number"));
                    }
                    let number = self.gc.heap_manager.get_string_bytes(num_as_str);
                    self.pending = Some(Request::ParseNumber(number));
                    Ok(())
                },
                Some(_) => Err(RuntimeError::new("Argument is not a stringified number")),
            }
        } else {
            Err(RuntimeError::new("Wrong architecture"))
        }
    }

    fn op_end_function(&mut self) -> (r: Result<(), RuntimeError>)
        requires
            old(self).wf(),
            old(self).ip < old(self).code.len(),
        ensures
            final(self).wf(),
            agrees(r, final(self)@, end_function_step(old(self)@)),
    {
        let offset = self.execution_stack.offset;
        if self.available() < 1 || offset < 1 {
            return Err(RuntimeError::new("Stack underflow"));
        }
        let saved = self.execution_stack.elements[offset];
        let place = self.execution_stack.elements[offset - 1];
        match (saved, place) {
            (Value::Number(off), Value::Number(ip)) => {
                let restored = to_index(off);
                if restored >= offset {
                    return Err(RuntimeError::new("Stack underflow"));
                }
                self.execution_stack.reset_to(1);
                self.execution_stack.pop();
                self.execution_stack.offset = restored;
                self.execution_stack.pop();
                self.ip = to_index(ip);
                assert(self.execution_stack@ =~= old(self).execution_stack@.subrange(
                    0,
                    offset - 1,
                ));
                Ok(())
            },
            _ => Err(RuntimeError::new("Wrong architecture")),
        }
    }

    fn op_access(&mut self) -> (r: Result<(), RuntimeError>)
        requires
            old(self).wf(),
            old(self).ip < old(self).code.len(),
        ensures
            final(self).wf(),
            agrees(r, final(self)@, access_step(old(self)@)),
    {
        let (key, container) = match self.pop_operands() {
            None => {
                return Err(RuntimeError::new("Stack underflow"));
            },
            Some(pair) => pair,
        };
        match container {
            Value::Object(obj) => {
                if !self.gc.heap_manager.is_object(obj) {
                    return Err(RuntimeError::new("Not an accessible object"));
                }
                match key {
                    Value::String(name) => {
                        let val = self.gc.heap_manager.get_property_from_object(obj, &name);
                        self.push_value(val);
                    },
                    _ => {
                        return Err(RuntimeError::new("Not a valid key"));
                    },
                }
            },
            Value::Array(arr) => {
                if !self.gc.heap_manager.is_array(arr) {
                    return Err(RuntimeError::new("Not an accessible object"));
                }
                let val = match key {
                    Value::String(name) => {
                        if !self.gc.heap_manager.is_string(name) {
                            return Err(RuntimeError::new("Not a valid key"));
                        }
                        match self.gc.heap_manager.get_property_from_array(arr, name) {
                            None => {
                                return Err(RuntimeError::new("Not a valid key"));
                            },
                            Some(val) => val,
                        }
                    },
                    Value::Number(num) => self.gc.heap_manager.get_property_from_array_num(
                        arr,
                        to_index(num),
                    ),
                    _ => {
                        return Err(RuntimeError::new("Not a valid key"));
                    },
                };
                self.push_value(val);
            },
            _ => {
                return Err(RuntimeError::new("Not an accessible object"));
            },
        }
        self.ip = self.ip + 1;
        Ok(())
    }

    /// Lets the collector run, with the globals and the stack as its roots.
    fn collect(&mut self)
        requires
            old(self).wf(),
        ensures
            final(self).wf(),
            swept_after(old(self)@, final(self)@),
    {
        let context = RuntimeContext {
            execution_stack: &self.execution_stack,
            globals: &self.globals,
        };
        assert(context.spec_roots() =~= roots(self@));
        self.gc.collect(&context);
    }

    /// Ends an instruction that asked the heap for a block.
    fn finish_allocation(
        &mut self,
        result: Result<Ptr, HeapError>,
        kind: Type,
        collect: bool,
    ) -> (r: Result<(), RuntimeError>)
        requires
            old(self).wf(),
            kind == Type::String || kind == Type::Object || kind == Type::Array,
        ensures
            final(self).wf(),
            allocation_ends(
                old(self)@,
                old(self).gc.heap_manager,
                result,
                kind,
                collect,
                final(self)@,
                failure_of(r),
            ),
    {
        match result {
            Err(_) => Err(RuntimeError::new("OOM: Max heap size has been reached")),
            Ok(ptr) => {
                let value = match kind {
                    Type::String => Value::String(ptr),
                    Type::Object => Value::Object(ptr),
                    _ => Value::Array(ptr),
                };
                self.push_value(value);
                if collect {
                    self.collect();
                }
                Ok(())
            },
        }
    }

    fn op_concatenate(&mut self) -> (r: Result<(), RuntimeError>)
        requires
            old(self).wf(),
            old(self).ip < old(self).code.len(),
            can_pop(old(self)@) && can_pop(pop(old(self)@)),
        ensures
            final(self).wf(),
            concat_step(old(self)@, final(self)@, failure_of(r)),
    {
        let (left, right) = match self.pop_operands() {
            None => {
                return Err(RuntimeError::new("Stack underflow"));
            },
            Some(pair) => pair,
        };
        self.ip = self.ip + 1;
        let ghost rest = self@;
        let ghost before = self.gc.heap_manager;
        match (left, right) {
            (Value::String(ptr2), Value::String(ptr1)) => {
                if !self.gc.heap_manager.is_string(ptr2) || !self.gc.heap_manager.is_string(ptr1) {
                    return Err(
                        RuntimeError::new("A string must only be added to another string"),
                    );
                }
                let result = self.gc.heap_manager.concatenate_strings(ptr2, ptr1);
                let ghost mid = self.gc.heap_manager;
                let r = self.finish_allocation(result, Type::String, true);
                proof {
                    assert(before.interning(
                        mid,
                        before.string_bytes(ptr2) + before.string_bytes(ptr1),
                        before.string_bytes(ptr2).len() + before.string_bytes(ptr1).len() + 2,
                        false,
                        result,
                    ) && allocation_ends(rest, mid, result, Type::String, true, self@, failure_of(r)));
                }
                r
            },
            (Value::Object(ptr2), Value::Object(ptr1)) => {
                if !self.gc.heap_manager.is_object(ptr2) || !self.gc.heap_manager.is_object(ptr1) {
                    return Err(
                        RuntimeError::new("An object must only be added to another object"),
                    );
                }
                let result = self.gc.heap_manager.concatenate_objects(ptr1, ptr2);
                let ghost mid = self.gc.heap_manager;
                let r = self.finish_allocation(result, Type::Object, true);
                proof {
                    assert(before.objects_concatenated(mid, ptr1, ptr2, result) && allocation_ends(
                        rest,
                        mid,
                        result,
                        Type::Object,
                        true,
                        self@,
                        failure_of(r),
                    ));
                }
                r
            },
            (_, Value::String(_)) => Err(
                RuntimeError::new("A string must only be added to another string"),
            ),
            _ => Err(RuntimeError::new("An object must only be added to another object")),
        }
    }
}

impl VM {
    fn op_allocate(&mut self) -> (r: Result<(), RuntimeError>)
        requires
            old(self).wf(),
            old(self).ip < old(self).code.len(),
        ensures
            final(self).wf(),
            allocate_step(old(self)@, final(self)@, failure_of(r)),
    {
        let len = match self.pop_value() {
            None => {
                return Err(RuntimeError::new("Stack underflow"));
            },
            Some(Value::Number(len)) => to_index(len),
            Some(_) => {
                return Err(RuntimeError::new("Compiling failed"));
            },
        };
        let ghost stack = self@.stack;
        if len > self.available() / 2 {
            return Err(RuntimeError::new("Stack underflow"));
        }
        let mut obj: Vec<(Ptr, Value)> = Vec::new();
        let mut i: usize = 0;
        while i < len
            invariant
                i <= len,
                self.wf(),
                2 * len <= stack.len() - self@.offset,
                stack == self@.stack,
                stack == pop(old(self)@).stack,
                self@.offset == old(self)@.offset,
                can_pop(old(self)@),
                top(old(self)@) matches Value::Number(bits) && len == crate::number::spec_to_index(
                    bits,
                ),
                obj.len() == i,
                forall|j: int|
                    0 <= j < i ==> (#[trigger] below(stack, len + j) matches Value::String(ptr)
                        && ptr != 0 && obj[j] == (ptr, below(stack, j))),
            decreases len - i,
        {
            let value = self.peek(i);
            let key = self.peek(len + i);
            match key {
                Value::String(str_ptr) => {
                    if str_ptr == 0 {
                        assert(!keys_below(stack, len as nat)) by {
                            assert(below(stack, len + i) == key);
                        }
                        return Err(RuntimeError::new("Compiling failed"));
                    }
                    obj.push((str_ptr, value));
                },
                _ => {
                    assert(!keys_below(stack, len as nat)) by {
                        assert(below(stack, len + i) == key);
                    }
                    return Err(RuntimeError::new("Compiling failed"));
                },
            }
            i = i + 1;
        }
        assert(obj@ =~= popped_pairs(stack, len as nat));
        self.drop_values(2 * len);
        self.ip = self.ip + 1;
        let ghost rest = self@;
        let ghost before = self.gc.heap_manager;
        let result = self.gc.heap_manager.allocate_object(obj);
        let ghost mid = self.gc.heap_manager;
        let r = self.finish_allocation(result, Type::Object, true);
        proof {
            assert(before.object_allocated(mid, popped_pairs(stack, len as nat), result)
                && allocation_ends(rest, mid, result, Type::Object, true, self@, failure_of(r)));
        }
        r
    }

    fn op_allocate_array(&mut self) -> (r: Result<(), RuntimeError>)
        requires
            old(self).wf(),
            old(self).ip < old(self).code.len(),
        ensures
            final(self).wf(),
            allocate_array_step(old(self)@, final(self)@, failure_of(r)),
    {
        let len = match self.pop_value() {
            None => {
                return Err(RuntimeError::new("Stack underflow"));
            },
            Some(Value::Number(len)) => to_index(len),
            Some(_) => {
                return Err(RuntimeError::new("Compiling failed"));
            },
        };
        let ghost stack = self@.stack;
        if len > self.available() {
            return Err(RuntimeError::new("Stack underflow"));
        }
        let mut values: Vec<Value> = Vec::new();
        let mut i: usize = 0;
        while i < len
            invariant
                i <= len,
                self.wf(),
                len <= stack.len() - self@.offset,
                stack == self@.stack,
                values.len() == i,
                forall|j: int| 0 <= j < i ==> values[j] == below(stack, j),
            decreases len - i,
        {
            values.push(self.peek(i));
            i = i + 1;
        }
        assert(values@ =~= popped_values(stack, len as nat));
        self.drop_values(len);
        self.ip = self.ip + 1;
        let ghost rest = self@;
        let ghost before = self.gc.heap_manager;
        let result = self.gc.heap_manager.allocate_array(values);
        let ghost mid = self.gc.heap_manager;
        let r = self.finish_allocation(result, Type::Array, true);
        proof {
            assert(before.array_allocated(mid, popped_values(stack, len as nat), result)
                && allocation_ends(rest, mid, result, Type::Array, true, self@, failure_of(r)));
        }
        r
    }

    fn op_set_property(&mut self) -> (r: Result<(), RuntimeError>)
        requires
            old(self).wf(),
            old(self).ip < old(self).code.len(),
        ensures
            final(self).wf(),
            set_property_step(old(self)@, final(self)@, failure_of(r)),
    {
        if self.available() < 3 {
            return Err(RuntimeError::new("Stack underflow"));
        }
        let object_key = self.peek(0);
        let container = self.peek(1);
        let val_to_set = self.peek(2);
        let ghost before = self.gc.heap_manager;
        let ghost rest = advance(
            Machine { stack: self@.stack.subrange(0, self@.stack.len() - 2), ..self@ },
            1,
        );
        match container {
            Value::Object(obj) => {
                if !self.gc.heap_manager.is_object(obj) {
                    return Err(RuntimeError::new("Not an indexable object"));
                }
                let str_key = match object_key {
                    Value::String(str_key) => str_key,
                    _ => {
                        return Err(RuntimeError::new("Not a valid key"));
                    },
                };
                if str_key == 0 {
                    return Err(RuntimeError::new("Not a valid key"));
                }
                let stored = self.gc.heap_manager.set_property_for_object(obj, str_key, val_to_set);
                let ghost mid = self.gc.heap_manager;
                if !stored {
                    assert(before.property_stored(mid, obj, str_key, val_to_set, stored));
                    return Err(RuntimeError::new("OOM: Max heap size has been reached"));
                }
                self.drop_values(2);
                self.ip = self.ip + 1;
                assert(before.property_stored(mid, obj, str_key, val_to_set, stored) && self@
                    == Machine { heap: mid, ..rest });
                Ok(())
            },
            Value::Array(arr) => {
                if !self.gc.heap_manager.is_array(arr) {
                    return Err(RuntimeError::new("Not an indexable object"));
                }
                match object_key {
                    Value::String(str_key) => {
                        if !self.gc.heap_manager.is_string(str_key) {
                            return Err(RuntimeError::new("Not a valid key"));
                        }
                        let stored = self.gc.heap_manager.set_property_for_array(
                            arr,
                            str_key,
                            val_to_set,
                        );
                        let ghost mid = self.gc.heap_manager;
                        if !stored {
                            assert(before.item_stored_by_name(mid, arr, str_key, val_to_set, stored));
                            return Err(RuntimeError::new("Index out of range"));
                        }
                        self.drop_values(2);
                        self.ip = self.ip + 1;
                        assert(before.item_stored_by_name(mid, arr, str_key, val_to_set, stored)
                            && self@ == Machine { heap: mid, ..rest });
                        Ok(())
                    },
                    Value::Number(num_key) => {
                        let stored = self.gc.heap_manager.set_property_for_array_num(
                            arr,
                            to_index(num_key),
                            val_to_set,
                        );
                        let ghost mid = self.gc.heap_manager;
                        if !stored {
                            assert(before.item_stored(
                                mid,
                                arr,
                                crate::number::spec_to_index(num_key),
                                val_to_set,
                                stored,
                            ));
                            return Err(RuntimeError::new("Index out of range"));
                        }
                        self.drop_values(2);
                        self.ip = self.ip + 1;
                        assert(before.item_stored(
                            mid,
                            arr,
                            crate::number::spec_to_index(num_key),
                            val_to_set,
                            stored,
                        ) && self@ == Machine { heap: mid, ..rest });
                        Ok(())
                    },
                    _ => Err(RuntimeError::new("Not a valid key")),
                }
            },
            _ => Err(RuntimeError::new("Not an indexable object")),
        }
    }

    /// The builtin that gives what a collection holds at an index.
    fn internal_iterable_get(&mut self) -> (r: Result<(), RuntimeError>)
        requires
            old(self).wf(),
        ensures
            final(self).wf(),
            iterable_step(old(self)@, final(self)@, failure_of(r)),
    {
        let (collection, index) = match self.pop_operands() {
            None => {
                return Err(RuntimeError::new("Stack underflow"));
            },
            Some(pair) => pair,
        };
        let index = match index {
            Value::Number(index) => to_index(index),
            _ => {
                return Err(RuntimeError::new("Expected number as second argument"));
            },
        };
        let ghost rest = self@;
        let ghost before = self.gc.heap_manager;
        match collection {
            Value::Array(ptr) => {
                if !self.gc.heap_manager.is_array(ptr) {
                    return Err(RuntimeError::new("Type of object is not iterable"));
                }
                if index >= self.gc.heap_manager.get_array_count(ptr) {
                    return Err(RuntimeError::new("List index out of range"));
                }
                let element = self.gc.heap_manager.get_property_from_array_num(ptr, index);
                self.push_value(element);
                Ok(())
            },
            Value::Object(ptr) => {
                if !self.gc.heap_manager.is_object(ptr) {
                    return Err(RuntimeError::new("Type of object is not iterable"));
                }
                let entries = self.gc.heap_manager.get_object(ptr);
                if index >= entries.len() {
                    return Err(RuntimeError::new("List index out of range"));
                }
                let entry = entries[index];
                let pair = vec![entry.value, Value::String(entry.key)];
                assert(pair@ =~= entry_pair(entry));
                let result = self.gc.heap_manager.allocate_array(pair);
                let ghost mid = self.gc.heap_manager;
                let r = self.finish_allocation(result, Type::Array, false);
                proof {
                    assert(before.array_allocated(mid, entry_pair(entry), result)
                        && allocation_ends(
                        rest,
                        mid,
                        result,
                        Type::Array,
                        false,
                        self@,
                        failure_of(r),
                    ));
                }
                r
            },
            _ => Err(RuntimeError::new("Type of object is not iterable")),
        }
    }

    fn op_call(&mut self) -> (r: Result<(), RuntimeError>)
        requires
            old(self).wf(),
            old(self).ip < old(self).code.len(),
            old(self).pending.is_none(),
            old(self).code[old(self).ip as int] == OP_CALL,
        ensures
            final(self).wf(),
            performed(old(self)@, final(self)@, r),
    {
        match self.pop_value() {
            None => Err(RuntimeError::new("Stack underflow")),
            Some(Value::Function(FunctionValue::UserDefined(ip, ar))) => self.enter_function(
                ip,
                ar,
            ),
            Some(Value::Function(FunctionValue::Builtin(func))) => {
                self.ip = self.ip + 1;
                if func == BUILTIN_ITERABLE_GET {
                    self.internal_iterable_get()
                } else {
                    self.builtin(func)
                }
            },
            Some(_) => Err(RuntimeError::new("Wrong architecture")),
        }
    }

    /// Performs the instruction at which the machine stands.
    fn perform(&mut self) -> (r: Result<(), RuntimeError>)
        requires
            old(self).wf(),
            old(self).ip < old(self).code.len(),
            old(self).pending.is_none(),
        ensures
            final(self).wf(),
            performed(old(self)@, final(self)@, r),
    {
        let op = self.code[self.ip];
        if op == OP_PUSH {
            self.op_push()
        } else if op == OP_JUMP {
            self.op_jump(false)
        } else if op == OP_JUMP_IF_FALSE {
            self.op_jump(true)
        } else if op == OP_ADD {
            if self.available() >= 2 {
                match self.peek(0) {
                    Value::String(_) => {
                        return self.op_concatenate();
                    },
                    Value::Object(_) => {
                        return self.op_concatenate();
                    },
                    _ => {},
                }
            }
            self.op_arithmetic(op)
        } else if op == OP_SUB || op == OP_MUL || op == OP_DIV || op == OP_POW {
            self.op_arithmetic(op)
        } else if op == OP_EQ {
            self.op_equality(false)
        } else if op == OP_NE {
            self.op_equality(true)
        } else if op == OP_AND || op == OP_OR {
            self.op_logic(op)
        } else if op == OP_GE || op == OP_GR || op == OP_LE || op == OP_LS {
            self.op_comparison(op)
        } else if op == OP_UNARY_NOT || op == OP_UNARY_SUB {
            self.op_unary(op)
        } else if op == OP_POP {
            self.op_pop()
        } else if op == OP_DECLARE {
            self.op_declare()
        } else if op == OP_DECLARE_GLOBAL {
            self.op_global(false)
        } else if op == OP_SET_GLOBAL {
            self.op_global(true)
        } else if op == OP_PRINT {
            self.op_print()
        } else if op == OP_SET {
            self.op_set()
        } else if op == OP_RETURN {
            self.op_return()
        } else if op == OP_END_FUNCTION {
            self.op_end_function()
        } else if op == OP_ACCESS {
            self.op_access()
        } else if op == OP_CALL {
            self.op_call()
        } else if op == OP_ALLOCATE {
            self.op_allocate()
        } else if op == OP_ALLOCATE_ARRAY {
            self.op_allocate_array()
        } else if op == OP_SET_PROPERTY {
            self.op_set_property()
        } else {
            Err(RuntimeError::new("Unknown instruction"))
        }
    }

    /// How the machine stands.
    pub fn status(&self) -> (status: Status)
        ensures
            status == standing(self@),
    {
        if self.pending.is_some() {
            Status::Waiting
        } else if self.ip == self.code.len() {
            Status::Finished
        } else {
            Status::Running
        }
    }

    /// One step: the machine performs the instruction at which it stands,
    /// unless it waits for an answer or has come to the end of the code.
    pub fn step(&mut self) -> (r: Result<Status, RuntimeError>)
        requires
            old(self).wf(),
        ensures
            final(self).wf(),
            stepped(old(self)@, final(self)@, r),
    {
        if self.pending.is_some() {
            return Ok(Status::Waiting);
        }
        if self.ip == self.code.len() {
            return Ok(Status::Finished);
        }
        if self.ip > self.code.len() {
            return Err(RuntimeError::new("Jump out of code"));
        }
        match self.perform() {
            Err(e) => Err(e),
            Ok(_) => Ok(self.status()),
        }
    }

    /// Steps until the machine fails, waits, has come to the end of the
    /// code, or has taken `fuel` steps.
    pub fn execute(&mut self, fuel: u64) -> (r: Result<Status, RuntimeError>)
        requires
            old(self).wf(),
        ensures
            final(self).wf(),
            executed(old(self)@, final(self)@, r, fuel as nat),
    {
        let mut left = fuel;
        let ghost mut trail: Seq<Machine> = seq![self@];
        while left > 0
            invariant
                self.wf(),
                left <= fuel,
                trail.len() == fuel - left + 1,
                trail[0] == old(self)@,
                trail.last() == self@,
                forall|i: int|
                    0 <= i < trail.len() - 1 ==> stepped(
                        #[trigger] trail[i],
                        trail[i + 1],
                        Ok(Status::Running),
                    ),
            decreases left,
        {
            let ghost before = trail;
            let stepping = self.step();
            proof {
                trail = trail.push(self@);
                assert(trail.drop_last() =~= before);
                assert forall|i: int| 0 <= i < trail.len() - 2 implies stepped(
                    #[trigger] trail[i],
                    trail[i + 1],
                    Ok(Status::Running),
                ) by {
                    assert(trail[i] == before[i]);
                    assert(trail[i + 1] == before[i + 1]);
                }
                assert(trail[trail.len() - 2] == before.last());
            }
            match stepping {
                Err(e) => {
                    proof {
                        assert(journeyed(trail, Err(e), fuel as nat));
                    }
                    return Err(e);
                },
                Ok(Status::Running) => {},
                Ok(status) => {
                    proof {
                        assert(journeyed(trail, Ok(status), fuel as nat));
                    }
                    return Ok(status);
                },
            }
            left = left - 1;
        }
        let status = self.status();
        proof {
            assert(journeyed(trail, Ok(status), fuel as nat));
        }
        Ok(status)
    }

    /// Takes the answer of the host to the request for which the machine
    /// waits.
    pub fn resume(&mut self, answer: Answer) -> (r: Result<(), RuntimeError>)
        requires
            old(self).wf(),
        ensures
            final(self).wf(),
            resumed(old(self)@, answer, final(self)@, failure_of(r)),
    {
        let mut request: Option<Request> = None;
        core::mem::swap(&mut self.pending, &mut request);
        match (request, answer) {
            (Some(Request::Arithmetic(_, _, _)), Answer::Number(bits)) => {
                self.push_value(Value::Number(bits));
                Ok(())
            },
            (Some(Request::ParseNumber(_)), Answer::Number(bits)) => {
                self.push_value(Value::Number(bits));
                Ok(())
            },
            (Some(Request::ParseNumber(_)), Answer::NotANumber) => Err(
                RuntimeError::new("Argument is not a stringified number"),
            ),
            (Some(Request::Sleep(_)), Answer::Done) => {
                self.push_value(Value::Null);
                Ok(())
            },
            (Some(Request::Input), Answer::Line(line)) => {
                let ghost rest = self@;
                let ghost before = self.gc.heap_manager;
                let ghost text = line@;
                let result = self.gc.heap_manager.allocate_string(line);
                let ghost mid = self.gc.heap_manager;
                let r = self.finish_allocation(result, Type::String, false);
                proof {
                    assert(before.interning(
                        mid,
                        crate::heap::interned_content(text),
                        vstd::utf8::encode_utf8(text).len() + 2,
                        false,
                        result,
                    ) && allocation_ends(rest, mid, result, Type::String, false, self@, failure_of(r)));
                }
                r
            },
            _ => Err(RuntimeError::new("Unexpected answer")),
        }
    }
}

/// What an answer makes of a machine that waits: the number that was asked
/// for is pushed; after a wait, null is pushed; a line that was read is
/// interned and its string is pushed.
pub open spec fn resumed(
    m: Machine,
    answer: Answer,
    after: Machine,
    failure: Option<Seq<char>>,
) -> bool {
    let rest = Machine { pending: None, ..m };
    match (m.pending, answer) {
        (Some(Demand::Arithmetic(_, _, _)), Answer::Number(bits)) => failure is None && after
            == push(rest, Value::Number(bits)),
        (Some(Demand::ParseNumber(_)), Answer::Number(bits)) => failure is None && after == push(
            rest,
            Value::Number(bits),
        ),
        (Some(Demand::ParseNumber(_)), Answer::NotANumber) => failure == Some(
            "Argument is not a stringified number"@,
        ),
        (Some(Demand::Sleep(_)), Answer::Done) => failure is None && after == push(
            rest,
            Value::Null,
        ),
        (Some(Demand::Input), Answer::Line(line)) => exists|
            mid: HeapManager,
            result: Result<Ptr, HeapError>,
        | #[trigger]
            m.heap.interning(
                mid,
                crate::heap::interned_content(line@),
                vstd::utf8::encode_utf8(line@).len() + 2,
                false,
                result,
            ) && allocation_ends(rest, mid, result, Type::String, false, after, failure),
        _ => failure == Some("Unexpected answer"@),
    }
}

/// How a machine stands.
pub open spec fn standing(m: Machine) -> Status {
    if m.pending is Some {
        Status::Waiting
    } else if m.ip == m.code.len() {
        Status::Finished
    } else {
        Status::Running
    }
}

/// True when `after` is the machine after the instruction at which `before`
/// stands, or the instruction failed with the error.
pub open spec fn performed(before: Machine, after: Machine, r: Result<(), RuntimeError>) -> bool {
    match instruction(before) {
        Some(turn) => agrees(r, after, turn),
        None => allocating(before, after, failure_of(r)),
    }
}

/// One step of the machine. A machine that waits, or that has come to the
/// end of the code, stays as it is.
pub open spec fn stepped(before: Machine, after: Machine, r: Result<Status, RuntimeError>) -> bool {
    if before.pending is Some || before.ip == before.code.len() {
        after == before && r == Ok::<Status, RuntimeError>(standing(before))
    } else if before.ip > before.code.len() {
        r matches Err(e) && e.message@ == "Jump out of code"@
    } else {
        match r {
            Ok(status) => performed(before, after, Ok(())) && status == standing(after),
            Err(e) => performed(before, after, Err(e)),
        }
    }
}

/// True when the machines are those of a run of at most `fuel` steps, each
/// the machine after a step of the one before, that ended with `r`: at the
/// first step that failed or after which the machine waited or had come to
/// the end of the code, and else after `fuel` steps.
pub open spec fn journeyed(journey: Seq<Machine>, r: Result<Status, RuntimeError>, fuel: nat) -> bool {
    &&& 1 <= journey.len() <= fuel + 1
    &&& forall|i: int|
        0 <= i < journey.len() - 2 ==> stepped(
            #[trigger] journey[i],
            journey[i + 1],
            Ok(Status::Running),
        )
    &&& if journey.len() == 1 {
        fuel == 0 && r == Ok::<Status, RuntimeError>(standing(journey[0]))
    } else {
        &&& stepped(journey[journey.len() - 2], journey.last(), r)
        &&& r matches Ok(Status::Running) ==> journey.len() == fuel + 1
    }
}

/// A run of at most `fuel` steps from one machine to another.
pub open spec fn executed(
    before: Machine,
    after: Machine,
    r: Result<Status, RuntimeError>,
    fuel: nat,
) -> bool {
    exists|journey: Seq<Machine>| #[trigger]
        journeyed(journey, r, fuel) && journey[0] == before && journey.last() == after
}

/// The message of the error of an instruction that failed.
pub open spec fn failure_of(r: Result<(), RuntimeError>) -> Option<Seq<char>> {
    match r {
        Ok(_) => None,
        Err(e) => Some(e.message@),
    }
}

/// True when every string that the compiler made in the first heap is, in
/// the second, the same string still.
pub open spec fn constants_kept(a: HeapManager, b: HeapManager) -> bool {
    forall|ptr: Ptr|
        #![trigger b.kind_at(ptr)]
        #![trigger b.cell(ptr)]
        a.holds_string(ptr) && a.cell(ptr).flag ==> b.holds_string(ptr) && b.cell(ptr) == a.cell(
            ptr,
        )
}

pub proof fn lemma_constants_kept_trans(a: HeapManager, b: HeapManager, c: HeapManager)
    requires
        constants_kept(a, b),
        constants_kept(b, c),
    ensures
        constants_kept(a, c),
{
    assert forall|ptr: Ptr|
        #![trigger c.kind_at(ptr)]
        #![trigger c.cell(ptr)]
        a.holds_string(ptr) && a.cell(ptr).flag implies c.holds_string(ptr) && c.cell(ptr)
        == a.cell(ptr) by {
        assert(b.kind_at(ptr) == CellKind::Text);
        assert(b.cell(ptr) == a.cell(ptr));
    }
}

/// A run of the collector keeps the strings that the compiler made.
pub proof fn lemma_collected_keeps_constants(a: HeapManager, b: HeapManager, roots: Seq<Value>)
    requires
        collected(a, b, roots),
    ensures
        constants_kept(a, b),
{
    assert forall|ptr: Ptr|
        #![trigger b.kind_at(ptr)]
        #![trigger b.cell(ptr)]
        a.holds_string(ptr) && a.cell(ptr).flag implies b.holds_string(ptr) && b.cell(ptr)
        == a.cell(ptr) by {
        if crowded(a) {
            assert(kept(a, roots, ptr));
            assert(b.kind_at(ptr) == a.kind_at(ptr));
        } else {
            assert(b.memory@ == a.memory@);
        }
    }
}

/// The end of an instruction that asked the heap for a block keeps the
/// strings that the compiler made, where asking did.
pub proof fn lemma_allocation_keeps_constants(
    before: HeapManager,
    rest: Machine,
    mid: HeapManager,
    result: Result<Ptr, HeapError>,
    kind: Type,
    collect: bool,
    after: Machine,
)
    requires
        constants_kept(before, mid),
        allocation_ends(rest, mid, result, kind, collect, after, None),
    ensures
        constants_kept(before, after.heap),
{
    let pushed = push(Machine { heap: mid, ..rest }, Value::decode(kind, result->Ok_0));
    if collect {
        lemma_collected_keeps_constants(mid, after.heap, roots(pushed));
        lemma_constants_kept_trans(before, mid, after.heap);
    }
}

pub proof fn lemma_interning_keeps_constants(
    before: HeapManager,
    mid: HeapManager,
    content: Seq<u8>,
    size: nat,
    flag: bool,
    result: Result<Ptr, HeapError>,
)
    requires
        before.interning(mid, content, size, flag, result),
    ensures
        constants_kept(before, mid),
{
    assert forall|ptr: Ptr|
        #![trigger mid.kind_at(ptr)]
        #![trigger mid.cell(ptr)]
        before.holds_string(ptr) && before.cell(ptr).flag implies mid.holds_string(ptr)
        && mid.cell(ptr) == before.cell(ptr) by {
        if mid.same(before) {
            assert(mid.memory@ == before.memory@);
        } else {
            assert(result is Ok);
            assert(ptr != result->Ok_0);
            assert(mid.kind_at(ptr) == before.kind_at(ptr));
        }
    }
}

pub proof fn lemma_adding_keeps_constants(
    before: HeapManager,
    mid: HeapManager,
    kind: CellKind,
    size: nat,
    flag: bool,
    result: Result<Ptr, HeapError>,
)
    requires
        before.adding(mid, kind, size, flag, result),
    ensures
        constants_kept(before, mid),
{
    assert forall|ptr: Ptr|
        #![trigger mid.kind_at(ptr)]
        #![trigger mid.cell(ptr)]
        before.holds_string(ptr) && before.cell(ptr).flag implies mid.holds_string(ptr)
        && mid.cell(ptr) == before.cell(ptr) by {
        match result {
            Err(_) => {
                assert(mid.memory@ == before.memory@);
            },
            Ok(fresh) => {
                assert(ptr != fresh);
                assert(mid.kind_at(ptr) == before.kind_at(ptr));
            },
        }
    }
}

pub proof fn lemma_change_keeps_constants(before: HeapManager, mid: HeapManager, changed: Ptr)
    requires
        before.only_changed(mid, changed) || mid.same(before),
        !before.holds_string(changed),
    ensures
        constants_kept(before, mid),
{
    assert forall|ptr: Ptr|
        #![trigger mid.kind_at(ptr)]
        #![trigger mid.cell(ptr)]
        before.holds_string(ptr) && before.cell(ptr).flag implies mid.holds_string(ptr)
        && mid.cell(ptr) == before.cell(ptr) by {
        if before.only_changed(mid, changed) {
            assert(mid.kind_at(ptr) == before.kind_at(ptr));
            assert(ptr != changed);
        } else {
            assert(mid.memory@ == before.memory@);
        }
    }
}

/// An instruction that asks the heap for nothing leaves the heap as it is.
pub proof fn lemma_instruction_keeps_heap(m: Machine)
    requires
        m.ip < m.code.len(),
    ensures
        instruction(m) matches Some(Ok(after)) ==> after.heap == m.heap,
{
}

/// Compile-constant survival: a step of the machine keeps every string
/// that the compiler made.
pub proof fn lemma_step_keeps_constants(
    before: Machine,
    after: Machine,
    r: Result<Status, RuntimeError>,
)
    requires
        stepped(before, after, r),
        r is Ok,
    ensures
        constants_kept(before.heap, after.heap),
{
    let heap = before.heap;
    if before.pending is Some || before.ip == before.code.len() {
    } else if before.ip > before.code.len() {
    } else {
        match instruction(before) {
            Some(turn) => {
                lemma_instruction_keeps_heap(before);
            },
            None => {
                let op = before.code[before.ip as int];
                if op == OP_ADD {
                    let right = top(before);
                    let left = top(pop(before));
                    let rest = advance(pop(pop(before)), 1);
                    match (left, right) {
                        (Value::String(l), Value::String(r)) => {
                            let (mid, result) = choose|
                                mid: HeapManager,
                                result: Result<Ptr, HeapError>,
                            | #[trigger]
                                heap.interning(
                                    mid,
                                    heap.string_bytes(l) + heap.string_bytes(r),
                                    heap.string_bytes(l).len() + heap.string_bytes(r).len() + 2,
                                    false,
                                    result,
                                ) && allocation_ends(
                                    rest,
                                    mid,
                                    result,
                                    Type::String,
                                    true,
                                    after,
                                    None,
                                );
                            lemma_interning_keeps_constants(
                                heap,
                                mid,
                                heap.string_bytes(l) + heap.string_bytes(r),
                                heap.string_bytes(l).len() + heap.string_bytes(r).len() + 2,
                                false,
                                result,
                            );
                            lemma_allocation_keeps_constants(
                                heap,
                                rest,
                                mid,
                                result,
                                Type::String,
                                true,
                                after,
                            );
                        },
                        (Value::Object(l), Value::Object(r)) => {
                            let (mid, result) = choose|
                                mid: HeapManager,
                                result: Result<Ptr, HeapError>,
                            | #[trigger]
                                heap.objects_concatenated(mid, r, l, result) && allocation_ends(
                                    rest,
                                    mid,
                                    result,
                                    Type::Object,
                                    true,
                                    after,
                                    None,
                                );
                            lemma_change_keeps_constants(heap, mid, r);
                            lemma_allocation_keeps_constants(
                                heap,
                                rest,
                                mid,
                                result,
                                Type::Object,
                                true,
                                after,
                            );
                        },
                        _ => {},
                    }
                } else if op == OP_ALLOCATE {
                    match top(before) {
                        Value::Number(bits) => {
                            let n = crate::number::spec_to_index(bits) as nat;
                            let stack = pop(before).stack;
                            let rest = advance(
                                Machine { stack: stack.subrange(0, stack.len() - 2 * n), ..before },
                                1,
                            );
                            let (mid, result) = choose|
                                mid: HeapManager,
                                result: Result<Ptr, HeapError>,
                            | #[trigger]
                                heap.object_allocated(mid, popped_pairs(stack, n), result)
                                    && allocation_ends(
                                    rest,
                                    mid,
                                    result,
                                    Type::Object,
                                    true,
                                    after,
                                    None,
                                );
                            lemma_adding_keeps_constants(
                                heap,
                                mid,
                                CellKind::Table,
                                crate::hash_table::BYTES_SIZE as nat,
                                false,
                                result,
                            );
                            lemma_allocation_keeps_constants(
                                heap,
                                rest,
                                mid,
                                result,
                                Type::Object,
                                true,
                                after,
                            );
                        },
                        _ => {},
                    }
                } else if op == OP_ALLOCATE_ARRAY {
                    match top(before) {
                        Value::Number(bits) => {
                            let n = crate::number::spec_to_index(bits) as nat;
                            let stack = pop(before).stack;
                            let rest = advance(
                                Machine { stack: stack.subrange(0, stack.len() - n), ..before },
                                1,
                            );
                            let (mid, result) = choose|
                                mid: HeapManager,
                                result: Result<Ptr, HeapError>,
                            | #[trigger]
                                heap.array_allocated(mid, popped_values(stack, n), result)
                                    && allocation_ends(
                                    rest,
                                    mid,
                                    result,
                                    Type::Array,
                                    true,
                                    after,
                                    None,
                                );
                            lemma_adding_keeps_constants(
                                heap,
                                mid,
                                CellKind::List,
                                crate::array::ARRAY_BYTES_SIZE as nat,
                                false,
                                result,
                            );
                            lemma_allocation_keeps_constants(
                                heap,
                                rest,
                                mid,
                                result,
                                Type::Array,
                                true,
                                after,
                            );
                        },
                        _ => {},
                    }
                } else if op == OP_SET_PROPERTY {
                    let key = below(before.stack, 0);
                    let value = below(before.stack, 2);
                    match below(before.stack, 1) {
                        Value::Object(obj) => match key {
                            Value::String(name) => {
                                let (mid, stored) = choose|mid: HeapManager, stored: bool| #[trigger]
                                    heap.property_stored(mid, obj, name, value, stored) && stored
                                        && after.heap == mid;
                                lemma_change_keeps_constants(heap, mid, obj);
                            },
                            _ => {},
                        },
                        Value::Array(arr) => match key {
                            Value::String(name) => {
                                let (mid, stored) = choose|mid: HeapManager, stored: bool| #[trigger]
                                    heap.item_stored_by_name(mid, arr, name, value, stored)
                                        && stored && after.heap == mid;
                                lemma_change_keeps_constants(heap, mid, arr);
                            },
                            Value::Number(bits) => {
                                let (mid, stored) = choose|mid: HeapManager, stored: bool| #[trigger]
                                    heap.item_stored(
                                        mid,
                                        arr,
                                        crate::number::spec_to_index(bits),
                                        value,
                                        stored,
                                    ) && stored && after.heap == mid;
                                lemma_change_keeps_constants(heap, mid, arr);
                            },
                            _ => {},
                        },
                        _ => {},
                    }
                } else {
                    let m = advance(pop(before), 1);
                    let rest = pop(pop(m));
                    match top(m) {
                        Value::Number(bits) => {
                            let index = crate::number::spec_to_index(bits);
                            match top(pop(m)) {
                                Value::Object(obj) => {
                                    let entry = heap.object_entries(obj)[index as int];
                                    let (mid, result) = choose|
                                        mid: HeapManager,
                                        result: Result<Ptr, HeapError>,
                                    | #[trigger]
                                        heap.array_allocated(mid, entry_pair(entry), result)
                                            && allocation_ends(
                                            rest,
                                            mid,
                                            result,
                                            Type::Array,
                                            false,
                                            after,
                                            None,
                                        );
                                    lemma_adding_keeps_constants(
                                        heap,
                                        mid,
                                        CellKind::List,
                                        crate::array::ARRAY_BYTES_SIZE as nat,
                                        false,
                                        result,
                                    );
                                    lemma_allocation_keeps_constants(
                                        heap,
                                        rest,
                                        mid,
                                        result,
                                        Type::Array,
                                        false,
                                        after,
                                    );
                                },
                                _ => {},
                            }
                        },
                        _ => {},
                    }
                }
            },
        }
    }
}

proof fn lemma_journey_keeps_constants(
    journey: Seq<Machine>,
    r: Result<Status, RuntimeError>,
    fuel: nat,
    k: int,
)
    requires
        journeyed(journey, r, fuel),
        r is Ok,
        0 <= k < journey.len(),
    ensures
        constants_kept(journey[0].heap, journey[k].heap),
    decreases k,
{
    if k > 0 {
        lemma_journey_keeps_constants(journey, r, fuel, k - 1);
        if k == journey.len() - 1 {
            lemma_step_keeps_constants(journey[k - 1], journey[k], r);
        } else {
            lemma_step_keeps_constants(journey[k - 1], journey[k], Ok(Status::Running));
        }
        lemma_constants_kept_trans(journey[0].heap, journey[k - 1].heap, journey[k].heap);
    }
}

/// Compile-constant survival: a run of the machine that does not fail
/// keeps every string that the compiler made.
pub proof fn lemma_run_keeps_constants(
    before: Machine,
    after: Machine,
    r: Result<Status, RuntimeError>,
    fuel: nat,
)
    requires
        executed(before, after, r, fuel),
        r is Ok,
    ensures
        constants_kept(before.heap, after.heap),
{
    let journey = choose|journey: Seq<Machine>| #[trigger]
        journeyed(journey, r, fuel) && journey[0] == before && journey.last() == after;
    lemma_journey_keeps_constants(journey, r, fuel, journey.len() - 1);
}

/// And so does the answer of the host.
pub proof fn lemma_answer_keeps_constants(before: Machine, answer: Answer, after: Machine)
    requires
        resumed(before, answer, after, None),
    ensures
        constants_kept(before.heap, after.heap),
{
    let rest = Machine { pending: None, ..before };
    match (before.pending, answer) {
        (Some(Demand::Input), Answer::Line(line)) => {
            let (mid, result) = choose|mid: HeapManager, result: Result<Ptr, HeapError>| #[trigger]
                before.heap.interning(
                    mid,
                    crate::heap::interned_content(line@),
                    vstd::utf8::encode_utf8(line@).len() + 2,
                    false,
                    result,
                ) && allocation_ends(rest, mid, result, Type::String, false, after, None);
            lemma_interning_keeps_constants(
                before.heap,
                mid,
                crate::heap::interned_content(line@),
                vstd::utf8::encode_utf8(line@).len() + 2,
                false,
                result,
            );
            lemma_allocation_keeps_constants(
                before.heap,
                rest,
                mid,
                result,
                Type::String,
                false,
                after,
            );
        },
        _ => {},
    }
}

} // verus!
