use vstd::prelude::*;
use vstd::string::*;
use vstd::utf8::*;
use crate::ast::expression::{
    ArrayExpression, AssignmentExpression, BinaryExpression, CallExpression, Expression, Identifier,
    MemberExpression, ObjectExpression, Operator, UnaryExpression,
};
use crate::ast::statement::{
    BlockStatement, DeclarationKind, DeclarationStatement, ExpressionStatement,
    FunctionDeclarationStatement, GlobalStatement, IfStatement, LoopStatement,
    MultiDeclarationStatement, PrintStatement, ReturnStatement, Statement,
};
use crate::builtins::{builtin_names, init_compiler_globals};
use crate::bytecode::{
    slot_bytes, Bytecode, OP_ACCESS, OP_ADD, OP_ALLOCATE, OP_ALLOCATE_ARRAY, OP_AND, OP_CALL,
    OP_DECLARE, OP_DECLARE_GLOBAL, OP_DIV, OP_END_FUNCTION, OP_EQ, OP_GE, OP_GET, OP_GET_GLOBAL,
    OP_GR, OP_JUMP, OP_JUMP_IF_FALSE, OP_LE, OP_LS, OP_MUL, OP_NE, OP_OR, OP_POP, OP_POW, OP_PRINT,
    OP_PUSH, OP_RETURN, OP_SET, OP_SET_GLOBAL, OP_SET_PROPERTY, OP_SUB, OP_UNARY_NOT, OP_UNARY_SUB,
};
use crate::bytes::{overwrite, spec_word_bytes};
use crate::env::{Env, Scope};
use crate::ast::view::global_clauses;
use crate::errors::CompilerError;
use crate::parser::grammar::{program_rest, Input};
use crate::parser::parser::Parser;
use crate::semantic::report::{run_all_semantic_checks, semantic_errors, spec_report};
use crate::heap::{interned_content, HeapManager};
use crate::layout::{lemma_jumps_closed, well_laid};
use crate::number::{from_index, spec_le_bytes, to_le_bytes, EXACT_LIMIT};
use crate::codegen::{
    array_expression, assignment_expression, binary_expression, bind_all, block_statement,
    break_jump, call_expression, count, declaration, declarations, declare_signature, emit,
    expression, expression_statement, expressions, print_statement, return_statement,
    function_body, function_declaration, global_statement, hash, if_end, if_statement, jump, leave,
    loop_statement, member_expression, name_position, number, object_expression, parameter_names,
    patch, patches, placeholder, pops, program, read_name, signature_position, statement,
    statements, string_constant, target_bytes, unary_expression, write_name, Draft, Outcome, Scene,
    Signatures,
};
use crate::types::Type;

verus! {

#[derive(Debug)]
pub enum Context {
    Global,
    Block,
    Function(String),
}

/// The parameters of a function that was declared.
#[derive(Debug)]
pub struct FunctionArgs {
    pub name: String,
    pub params: Vec<String>,
}

/// The compiler: it walks a program once and writes its code, with the heap
/// in which it interns the texts of the program.
#[derive(Debug)]
pub struct Compiler {
    pub heap_manager: HeapManager,
    pub code: Vec<Bytecode>,
    pub env: Env,
    pub break_stmt: Vec<Vec<usize>>,
    pub context: Context,
    pub globals: Vec<String>,
    pub active_func_args: Vec<FunctionArgs>,
}

pub open spec fn texts(names: Seq<String>) -> Seq<Seq<char>> {
    Seq::new(names.len(), |i: int| names[i]@)
}

pub open spec fn places(lists: Seq<Vec<usize>>) -> Seq<Seq<usize>> {
    Seq::new(lists.len(), |i: int| lists[i]@)
}

pub open spec fn signatures(args: Seq<FunctionArgs>) -> Signatures {
    Seq::new(args.len(), |i: int| (args[i].name@, texts(args[i].params@)))
}

impl Context {
    pub open spec fn view(&self) -> Scene {
        match *self {
            Context::Global => Scene::Global,
            Context::Block => Scene::Block,
            Context::Function(name) => Scene::Function(name@),
        }
    }
}

/// True when a step of the compiler ended as the draft says that it ends.
pub open spec fn ended(r: Result<(), CompilerError>, after: Draft, expected: Outcome) -> bool {
    match r {
        Ok(_) => expected == Ok::<Draft, Seq<char>>(after),
        Err(e) => expected == Err::<Draft, Seq<char>>(e.message@),
    }
}

impl Compiler {
    /// What the compiler has made so far.
    pub open spec fn view(&self) -> Draft {
        Draft {
            heap: self.heap_manager.outline(),
            code: self.code@,
            scopes: self.env@,
            break_stmt: places(self.break_stmt@),
            context: self.context@,
            globals: texts(self.globals@),
            active_func_args: signatures(self.active_func_args@),
        }
    }

    pub open spec fn wf(&self) -> bool {
        self.heap_manager.wf()
    }

    /// A compiler that has written nothing, at the top of a program, that
    /// knows the names of the host's functions.
    pub fn new(heap_manager: HeapManager) -> (compiler: Self)
        ensures
            compiler.heap_manager == heap_manager,
            compiler@.code == Seq::<u8>::empty(),
            compiler@.scopes == seq![Scope { frame_beginning: true, variables: Seq::empty() }],
            compiler@.break_stmt == Seq::<Seq<usize>>::empty(),
            compiler@.context == Scene::Global,
            compiler@.globals == builtin_names(),
            compiler@.active_func_args == Seq::<(Seq<char>, Seq<Seq<char>>)>::empty(),
    {
        let std_lib = init_compiler_globals();
        let compiler = Compiler {
            break_stmt: Vec::new(),
            code: Vec::new(),
            env: Env::new(),
            context: Context::Global,
            globals: std_lib,
            active_func_args: Vec::new(),
            heap_manager,
        };
        assert(compiler@.break_stmt =~= Seq::<Seq<usize>>::empty());
        assert(compiler@.globals =~= builtin_names());
        assert(compiler@.active_func_args =~= Seq::<(Seq<char>, Seq<Seq<char>>)>::empty());
        compiler
    }

    pub fn emit_byte(&mut self, byte_code: Bytecode)
        ensures
            final(self)@ == emit(old(self)@, seq![byte_code]),
            final(self).heap_manager == old(self).heap_manager,
    {
        self.code.push(byte_code);
        assert(self.code@ =~= old(self).code@ + seq![byte_code]);
    }

    pub fn emit_bytes(&mut self, byte_code1: Bytecode, byte_code2: Bytecode)
        ensures
            final(self)@ == emit(old(self)@, seq![byte_code1, byte_code2]),
            final(self).heap_manager == old(self).heap_manager,
    {
        self.code.push(byte_code1);
        self.code.push(byte_code2);
        assert(self.code@ =~= old(self).code@ + seq![byte_code1, byte_code2]);
    }

    fn emit_all(&mut self, bytes: &Vec<u8>)
        ensures
            final(self)@ == emit(old(self)@, bytes@),
            final(self).heap_manager == old(self).heap_manager,
    {
        let mut i: usize = 0;
        while i < bytes.len()
            invariant
                i <= bytes.len(),
                self.code@ == old(self).code@ + bytes@.subrange(0, i as int),
                self.heap_manager == old(self).heap_manager,
                self.env == old(self).env,
                self.break_stmt == old(self).break_stmt,
                self.context == old(self).context,
                self.globals == old(self).globals,
                self.active_func_args == old(self).active_func_args,
            decreases bytes.len() - i,
        {
            self.code.push(bytes[i]);
            i = i + 1;
            assert(self.code@ =~= old(self).code@ + bytes@.subrange(0, i as int));
        }
        assert(bytes@.subrange(0, i as int) =~= bytes@);
    }

    /// A number constant.
    pub fn emit_number(&mut self, number: u32)
        ensures
            final(self)@ == crate::codegen::number(old(self)@, number),
            final(self).heap_manager == old(self).heap_manager,
    {
        let le = Self::convert_number_to_bytes(number);
        let bytes = vec![OP_PUSH, Type::Number.to_byte(), le[0], le[1], le[2], le[3]];
        assert(bytes@ =~= seq![OP_PUSH, Type::Number.tag()] + spec_le_bytes(number));
        self.emit_all(&bytes);
    }

    pub fn emit_boolean(&mut self, val: bool)
        ensures
            final(self)@ == emit(
                old(self)@,
                seq![
                    OP_PUSH,
                    Type::Boolean.tag(),
                    if val {
                        1u8
                    } else {
                        0u8
                    },
                ],
            ),
            final(self).heap_manager == old(self).heap_manager,
    {
        let bytes = vec![OP_PUSH, Type::Boolean.to_byte(), Self::convert_bool_to_byte(val)];
        assert(bytes@ =~= seq![
            OP_PUSH,
            Type::Boolean.tag(),
            if val {
                1u8
            } else {
                0u8
            },
        ]);
        self.emit_all(&bytes);
    }

    pub fn emit_null(&mut self)
        ensures
            final(self)@ == emit(old(self)@, seq![OP_PUSH, Type::Null.tag()]),
            final(self).heap_manager == old(self).heap_manager,
    {
        self.emit_bytes(OP_PUSH, Type::Null.to_byte());
    }

    /// Four bytes that wait for a jump target.
    pub fn emit_temp_byte(&mut self)
        ensures
            final(self)@ == emit(old(self)@, placeholder()),
            final(self).heap_manager == old(self).heap_manager,
    {
        let bytes = vec![0u8, 0u8, 0u8, 0u8];
        assert(bytes@ =~= placeholder());
        self.emit_all(&bytes);
    }

    /// A jump whose target waits to be patched. The result is where the
    /// target stands.
    pub fn emit_jump(&mut self) -> (loc: usize)
        ensures
            final(self)@ == jump(old(self)@),
            final(self).heap_manager == old(self).heap_manager,
            loc == old(self)@.code.len() + 1,
    {
        let bytes = vec![OP_JUMP, 0u8, 0u8, 0u8, 0u8];
        assert(bytes@ =~= seq![OP_JUMP] + placeholder());
        self.emit_all(&bytes);
        self.code.len() - 4
    }

    fn find_global(&self, variable: &String) -> (at: usize)
        ensures
            at == name_position(texts(self.globals@), variable@, 0),
            at <= self.globals.len(),
    {
        let mut i: usize = 0;
        while i < self.globals.len()
            invariant
                i <= self.globals.len(),
                forall|j: int| 0 <= j < i ==> self.globals[j]@ != variable@,
            decreases self.globals.len() - i,
        {
            if self.globals[i] == *variable {
                proof {
                    lemma_name_position_is(texts(self.globals@), variable@, 0, i as int);
                }
                return i;
            }
            i = i + 1;
        }
        proof {
            lemma_name_position_is(texts(self.globals@), variable@, 0, i as int);
        }
        i
    }

    /// The slot of a global, by its name; a new name takes the next slot.
    pub fn emit_hash(&mut self, variable: String) -> (r: Result<(), CompilerError>)
        ensures
            ended(r, final(self)@, hash(old(self)@, variable@)),
            final(self).heap_manager == old(self).heap_manager,
    {
        let at = self.find_global(&variable);
        if at > 0xffff {
            return Err(CompilerError::new("Too many global variables"));
        }
        let slot = slot_bytes(at as u16);
        let bytes = vec![slot[0], slot[1]];
        assert(bytes@ =~= crate::bytecode::spec_slot_bytes(at as u16));
        if at == self.globals.len() {
            let ghost name = variable@;
            self.globals.push(variable);
            assert(texts(self.globals@) =~= texts(old(self).globals@).push(name));
        }
        self.emit_all(&bytes);
        Ok(())
    }

    /// Writes the length of the code over the four bytes at `index`.
    pub fn back_patch(&mut self, index: usize) -> (r: Result<(), CompilerError>)
        ensures
            ended(r, final(self)@, patch(old(self)@, index as int)),
            final(self).heap_manager == old(self).heap_manager,
    {
        match from_index(self.code.len()) {
            None => Err(CompilerError::new("Program is too large for its jump targets")),
            Some(bits) => {
                if index > self.code.len() || self.code.len() - index < 4 {
                    return Err(CompilerError::new("Something went wrong when compiling"));
                }
                let numb = Self::convert_number_to_bytes(bits);
                self.code[index] = numb[0];
                self.code[index + 1] = numb[1];
                self.code[index + 2] = numb[2];
                self.code[index + 3] = numb[3];
                assert(self.code@ =~= overwrite(
                    old(self).code@,
                    index as int,
                    target_bytes(old(self).code@.len()),
                ));
                Ok(())
            },
        }
    }

    pub fn convert_number_to_bytes(number: u32) -> (bytes: [u8; 4])
        ensures
            bytes@ == spec_le_bytes(number),
    {
        to_le_bytes(number)
    }

    pub fn convert_bool_to_byte(val: bool) -> (byte: u8)
        ensures
            byte == if val {
                1u8
            } else {
                0u8
            },
    {
        if val {
            return 1;
        }
        0
    }

    pub fn convert_bool_from_byte(val: u8) -> (r: bool)
        ensures
            r == (val == 1),
    {
        val == 1
    }

    pub fn convert_number_from_bytes(number: [u8; 4]) -> (bits: u32)
        ensures
            bits == crate::number::spec_from_le_bytes(number@),
    {
        crate::number::from_le_bytes(number)
    }
}

impl Compiler {
    fn put(&mut self, bytes: Vec<u8>)
        ensures
            final(self)@ == emit(old(self)@, bytes@),
            final(self).heap_manager == old(self).heap_manager,
    {
        self.emit_all(&bytes);
    }

    /// Enters a scope: one of the frame around it, or one that begins a
    /// frame.
    fn enter_scope(&mut self, frame: bool)
        ensures
            final(self)@ == (Draft {
                scopes: old(self)@.scopes.push(
                    Scope { frame_beginning: frame, variables: Seq::empty() },
                ),
                ..old(self)@
            }),
            final(self).heap_manager == old(self).heap_manager,
    {
        let mut outer = Env::new();
        core::mem::swap(&mut self.env, &mut outer);
        self.env = if frame {
            Env::new_frame(Box::new(outer))
        } else {
            Env::new_local(Box::new(outer))
        };
    }

    fn leave_scope(&mut self) -> (r: Result<(), CompilerError>)
        ensures
            ended(r, final(self)@, leave(old(self)@)),
            final(self).heap_manager == old(self).heap_manager,
    {
        proof {
            self.env.lemma_view();
        }
        let mut inner = Env::new();
        core::mem::swap(&mut self.env, &mut inner);
        match inner.enclosing {
            Some(outer) => {
                self.env = *outer;
                Ok(())
            },
            None => Err(CompilerError::new("Something went wrong when compiling")),
        }
    }

    pub fn visit_expression(&mut self, expr: &Expression) -> (r: Result<(), CompilerError>)
        requires
            old(self).wf(),
        ensures
            final(self).wf(),
            ended(r, final(self)@, expression(old(self)@, *expr)),
        decreases expr, 0nat,
    {
        match expr {
            Expression::Nil => {
                self.emit_null();
                Ok(())
            },
            Expression::Bool(value) => {
                self.emit_boolean(*value);
                Ok(())
            },
            Expression::Number(value) => {
                self.emit_number(*value);
                Ok(())
            },
            Expression::String(value) => self.visit_string_expression(value),
            Expression::Identifier(value) => self.visit_identifier_expression(value),
            Expression::Call(value) => self.visit_call_expression(value),
            Expression::Assigment(value) => self.visit_assignment_expression(value),
            Expression::Binary(value) => self.visit_binary_expression(value),
            Expression::Unary(value) => self.visit_unary_expression(value),
            Expression::Group(value) => self.visit_expression(&value.expr),
            Expression::Member(value) => self.visit_member_expression(value),
            Expression::Object(value) => self.visit_object_expression(value),
            Expression::Array(value) => self.visit_array_expression(value),
        }
    }

    fn visit_expressions(&mut self, exprs: &Vec<Expression>) -> (r: Result<(), CompilerError>)
        requires
            old(self).wf(),
        ensures
            final(self).wf(),
            ended(r, final(self)@, expressions(old(self)@, *exprs, exprs.len() as nat)),
        decreases exprs, 1nat,
    {
        let mut i: usize = 0;
        while i < exprs.len()
            invariant
                i <= exprs.len(),
                self.wf(),
                expressions(old(self)@, *exprs, i as nat) == Ok::<Draft, Seq<char>>(self@),
            decreases exprs.len() - i,
        {
            match self.visit_expression(&exprs[i]) {
                Err(e) => {
                    proof {
                        lemma_expressions_fail(old(self)@, *exprs, i as nat + 1, exprs.len() as nat);
                    }
                    return Err(e);
                },
                Ok(_) => {},
            }
            i = i + 1;
        }
        Ok(())
    }

    pub fn visit_string_expression(&mut self, value: &String) -> (r: Result<(), CompilerError>)
        requires
            old(self).wf(),
        ensures
            final(self).wf(),
            ended(r, final(self)@, string_constant(old(self)@, value@)),
    {
        let ghost before = self.heap_manager;
        let allocated = self.heap_manager.allocate_compiled_string(value.clone());
        proof {
            before.lemma_interning_outline(
                self.heap_manager,
                interned_content(value@),
                (encode_utf8(value@).len() + 2) as nat,
                true,
                allocated,
            );
        }
        match allocated {
            Err(_) => Err(CompilerError::new("OOM: Max heap size has been reached")),
            Ok(ptr) => {
                let word = crate::bytes::number_bytes(ptr);
                let bytes = vec![
                    OP_PUSH,
                    Type::String.to_byte(),
                    word[0],
                    word[1],
                    word[2],
                    word[3],
                    word[4],
                    word[5],
                    word[6],
                    word[7],
                ];
                assert(bytes@ =~= seq![OP_PUSH, Type::String.tag()] + spec_word_bytes(ptr));
                self.put(bytes);
                Ok(())
            },
        }
    }

    pub fn visit_identifier_expression(&mut self, value: &String) -> (r: Result<
        (),
        CompilerError,
    >)
        requires
            old(self).wf(),
        ensures
            final(self).wf(),
            ended(r, final(self)@, read_name(old(self)@, value@)),
    {
        let var = self.env.get_variable(value);
        if let Some(variable) = var {
            self.put(vec![OP_PUSH, OP_GET, variable.key]);
            Ok(())
        } else {
            self.emit_bytes(OP_PUSH, OP_GET_GLOBAL);
            self.emit_hash(value.clone())
        }
    }

    fn visit_assignee_name(&mut self, ident: &String) -> (r: Result<(), CompilerError>)
        requires
            old(self).wf(),
        ensures
            final(self).wf(),
            ended(r, final(self)@, write_name(old(self)@, ident@)),
    {
        let var = self.env.get_variable(ident);
        if let Some(variable) = var {
            if variable.is_constant {
                return Err(CompilerError::new("Cannot reassign a variable declared as const"));
            }
            self.emit_bytes(OP_SET, variable.key);
            Ok(())
        } else {
            self.emit_byte(OP_SET_GLOBAL);
            self.emit_hash(ident.clone())
        }
    }

    pub fn visit_call_expression(&mut self, value: &CallExpression) -> (r: Result<
        (),
        CompilerError,
    >)
        requires
            old(self).wf(),
        ensures
            final(self).wf(),
            ended(r, final(self)@, call_expression(old(self)@, *value)),
        decreases value, 2nat,
    {
        match self.visit_expressions(&value.args) {
            Err(e) => {
                return Err(e);
            },
            Ok(_) => {},
        }
        match self.visit_expression(&value.callee) {
            Err(e) => {
                return Err(e);
            },
            Ok(_) => {},
        }
        self.emit_byte(OP_CALL);
        Ok(())
    }

    pub fn visit_assignment_expression(&mut self, value: &AssignmentExpression) -> (r: Result<
        (),
        CompilerError,
    >)
        requires
            old(self).wf(),
        ensures
            final(self).wf(),
            ended(r, final(self)@, assignment_expression(old(self)@, *value)),
        decreases value, 2nat,
    {
        match self.visit_expression(&value.value) {
            Err(e) => {
                return Err(e);
            },
            Ok(_) => {},
        }
        match &value.assignee {
            Expression::Identifier(ident) => self.visit_assignee_name(ident),
            Expression::Member(mem) => {
                match self.visit_expression(&mem.callee) {
                    Err(e) => {
                        return Err(e);
                    },
                    Ok(_) => {},
                }
                match self.visit_expression(&mem.property) {
                    Err(e) => {
                        return Err(e);
                    },
                    Ok(_) => {},
                }
                self.emit_byte(OP_SET_PROPERTY);
                Ok(())
            },
            _ => Err(CompilerError::new("Incorrect lvalue")),
        }
    }

    pub fn visit_binary_expression(&mut self, value: &BinaryExpression) -> (r: Result<
        (),
        CompilerError,
    >)
        requires
            old(self).wf(),
        ensures
            final(self).wf(),
            ended(r, final(self)@, binary_expression(old(self)@, *value)),
        decreases value, 2nat,
    {
        match self.visit_expression(&value.left) {
            Err(e) => {
                return Err(e);
            },
            Ok(_) => {},
        }
        match self.visit_expression(&value.right) {
            Err(e) => {
                return Err(e);
            },
            Ok(_) => {},
        }
        let code = match value.operator {
            Operator::Plus => OP_ADD,
            Operator::Minus => OP_SUB,
            Operator::Div => OP_DIV,
            Operator::Mul => OP_MUL,
            Operator::Pow => OP_POW,
            Operator::Eq => OP_EQ,
            Operator::NE => OP_NE,
            Operator::And => OP_AND,
            Operator::Or => OP_OR,
            Operator::Ge => OP_GE,
            Operator::Le => OP_LE,
            Operator::Greater => OP_GR,
            Operator::Less => OP_LS,
            Operator::Mod => {
                return Err(CompilerError::new("Operator not supported"));
            },
        };
        self.emit_byte(code);
        Ok(())
    }

    pub fn visit_unary_expression(&mut self, value: &UnaryExpression) -> (r: Result<
        (),
        CompilerError,
    >)
        requires
            old(self).wf(),
        ensures
            final(self).wf(),
            ended(r, final(self)@, unary_expression(old(self)@, *value)),
        decreases value, 2nat,
    {
        match self.visit_expression(&value.expr) {
            Err(e) => {
                return Err(e);
            },
            Ok(_) => {},
        }
        match value.operator {
            Operator::Minus => self.emit_byte(OP_UNARY_SUB),
            Operator::NE => self.emit_byte(OP_UNARY_NOT),
            _ => {
                return Err(CompilerError::new("Other unary operator not supported"));
            },
        }
        Ok(())
    }

    pub fn visit_member_expression(&mut self, value: &MemberExpression) -> (r: Result<
        (),
        CompilerError,
    >)
        requires
            old(self).wf(),
        ensures
            final(self).wf(),
            ended(r, final(self)@, member_expression(old(self)@, *value)),
        decreases value, 2nat,
    {
        match self.visit_expression(&value.property) {
            Err(e) => {
                return Err(e);
            },
            Ok(_) => {},
        }
        match self.visit_expression(&value.callee) {
            Err(e) => {
                return Err(e);
            },
            Ok(_) => {},
        }
        self.emit_byte(OP_ACCESS);
        Ok(())
    }

    /// A count as a number constant.
    fn emit_count(&mut self, n: usize) -> (r: Result<(), CompilerError>)
        ensures
            ended(r, final(self)@, count(old(self)@, n as nat)),
            final(self).heap_manager == old(self).heap_manager,
    {
        match from_index(n) {
            None => Err(CompilerError::new("Too many items in a literal")),
            Some(bits) => {
                self.emit_number(bits);
                Ok(())
            },
        }
    }

    pub fn visit_object_expression(&mut self, value: &ObjectExpression) -> (r: Result<
        (),
        CompilerError,
    >)
        requires
            old(self).wf(),
        ensures
            final(self).wf(),
            ended(r, final(self)@, object_expression(old(self)@, *value)),
        decreases value, 2nat,
    {
        match self.visit_expressions(&value.properties) {
            Err(e) => {
                return Err(e);
            },
            Ok(_) => {},
        }
        match self.visit_expressions(&value.values) {
            Err(e) => {
                return Err(e);
            },
            Ok(_) => {},
        }
        match self.emit_count(value.properties.len()) {
            Err(e) => {
                return Err(e);
            },
            Ok(_) => {},
        }
        self.emit_byte(OP_ALLOCATE);
        Ok(())
    }

    pub fn visit_array_expression(&mut self, value: &ArrayExpression) -> (r: Result<
        (),
        CompilerError,
    >)
        requires
            old(self).wf(),
        ensures
            final(self).wf(),
            ended(r, final(self)@, array_expression(old(self)@, *value)),
        decreases value, 2nat,
    {
        match self.visit_expressions(&value.values) {
            Err(e) => {
                return Err(e);
            },
            Ok(_) => {},
        }
        match self.emit_count(value.values.len()) {
            Err(e) => {
                return Err(e);
            },
            Ok(_) => {},
        }
        self.emit_byte(OP_ALLOCATE_ARRAY);
        Ok(())
    }
}

impl Compiler {
    fn find_signature(&self, name: &String) -> (at: usize)
        ensures
            at == signature_position(signatures(self.active_func_args@), name@, 0),
            at <= self.active_func_args.len(),
    {
        let mut i: usize = 0;
        while i < self.active_func_args.len()
            invariant
                i <= self.active_func_args.len(),
                forall|j: int| 0 <= j < i ==> self.active_func_args[j].name@ != name@,
            decreases self.active_func_args.len() - i,
        {
            if self.active_func_args[i].name == *name {
                proof {
                    lemma_signature_position_is(
                        signatures(self.active_func_args@),
                        name@,
                        0,
                        i as int,
                    );
                }
                return i;
            }
            i = i + 1;
        }
        proof {
            lemma_signature_position_is(signatures(self.active_func_args@), name@, 0, i as int);
        }
        i
    }

    fn declare_function(&mut self, name: String, params: Vec<String>)
        ensures
            final(self)@ == (Draft {
                active_func_args: declare_signature(
                    old(self)@.active_func_args,
                    name@,
                    texts(params@),
                ),
                ..old(self)@
            }),
            final(self).heap_manager == old(self).heap_manager,
    {
        let at = self.find_signature(&name);
        let ghost key = name@;
        let ghost names = texts(params@);
        if at < self.active_func_args.len() {
            self.active_func_args[at] = FunctionArgs { name, params };
        } else {
            self.active_func_args.push(FunctionArgs { name, params });
        }
        assert(signatures(self.active_func_args@) =~= declare_signature(
            signatures(old(self).active_func_args@),
            key,
            names,
        ));
    }

    pub fn visit_local_statement(&mut self, stmt: &Statement) -> (r: Result<(), CompilerError>)
        requires
            old(self).wf(),
        ensures
            final(self).wf(),
            ended(r, final(self)@, statement(old(self)@, *stmt)),
        decreases stmt, 0nat,
    {
        match stmt {
            Statement::Print(value) => self.visit_print_statement(value),
            Statement::FunctionBody(value) => self.visit_function_body(value),
            Statement::Break => self.visit_break_statement(),
            Statement::Block(value) => self.visit_block_statement(value),
            Statement::Expression(value) => self.visit_expression_statement(value),
            Statement::Return(value) => self.visit_return_statement(value),
            Statement::If(value) => self.visit_if_statement(value),
            Statement::Declaration(value) => self.visit_declaration_statement(value),
            Statement::MultiDeclaration(value) => self.visit_multi_declaration(value),
            Statement::Loop(value) => self.visit_loop_statement(value),
        }
    }

    fn visit_statements(&mut self, stmts: &Vec<Statement>) -> (r: Result<(), CompilerError>)
        requires
            old(self).wf(),
        ensures
            final(self).wf(),
            ended(r, final(self)@, statements(old(self)@, *stmts, stmts.len() as nat)),
        decreases stmts, 1nat,
    {
        let mut i: usize = 0;
        while i < stmts.len()
            invariant
                i <= stmts.len(),
                self.wf(),
                statements(old(self)@, *stmts, i as nat) == Ok::<Draft, Seq<char>>(self@),
            decreases stmts.len() - i,
        {
            match self.visit_local_statement(&stmts[i]) {
                Err(e) => {
                    proof {
                        lemma_statements_fail(old(self)@, *stmts, i as nat + 1, stmts.len() as nat);
                    }
                    return Err(e);
                },
                Ok(_) => {},
            }
            i = i + 1;
        }
        Ok(())
    }

    pub fn visit_function_body(&mut self, stmt: &BlockStatement) -> (r: Result<(), CompilerError>)
        requires
            old(self).wf(),
        ensures
            final(self).wf(),
            ended(r, final(self)@, function_body(old(self)@, *stmt)),
        decreases stmt, 2nat,
    {
        let func_name = match &self.context {
            Context::Function(func_name) => func_name.clone(),
            _ => {
                return Err(CompilerError::new("Something went wrong when compiling"));
            },
        };
        let at = self.find_signature(&func_name);
        if at >= self.active_func_args.len() {
            return Err(CompilerError::new("Something went wrong when compiling"));
        }
        let mut params: Vec<String> = Vec::new();
        let mut p: usize = 0;
        while p < self.active_func_args[at].params.len()
            invariant
                at < self.active_func_args.len(),
                p <= self.active_func_args[at as int].params.len(),
                params.len() == p,
                forall|j: int| 0 <= j < p ==> params[j]@ == self.active_func_args[at as int].params[j]@,
            decreases self.active_func_args[at as int].params.len() - p,
        {
            params.push(self.active_func_args[at].params[p].clone());
            p = p + 1;
        }
        assert(texts(params@) =~= old(self)@.active_func_args[at as int].1);
        self.enter_scope(true);
        self.env.set_variable(String::from_str("__offset__"));
        let ghost base = self@;
        let mut i: usize = 0;
        while i < params.len()
            invariant
                i <= params.len(),
                self.wf(),
                self@ == (Draft { scopes: bind_all(base.scopes, texts(params@), i as int), ..base }),
            decreases params.len() - i,
        {
            self.env.set_variable(params[i].clone());
            i = i + 1;
        }
        match self.visit_statements(&stmt.statements) {
            Err(e) => {
                return Err(e);
            },
            Ok(_) => {},
        }
        self.leave_scope()
    }

    pub fn visit_break_statement(&mut self) -> (r: Result<(), CompilerError>)
        requires
            old(self).wf(),
        ensures
            final(self).wf(),
            ended(r, final(self)@, break_jump(old(self)@)),
    {
        if self.break_stmt.len() == 0 {
            return Err(CompilerError::new("Break statement outside loop is not allowed"));
        }
        if self.code.len() >= EXACT_LIMIT - 1 {
            return Err(CompilerError::new("Program is too large for its jump targets"));
        }
        self.emit_byte(OP_JUMP);
        let place = self.code.len();
        let ghost lists = places(self.break_stmt@);
        match self.break_stmt.pop() {
            Some(mut cont) => {
                cont.push(place);
                self.break_stmt.push(cont);
            },
            None => {},
        }
        assert(places(self.break_stmt@) =~= lists.update(
            lists.len() - 1,
            lists.last().push(place),
        ));
        self.emit_temp_byte();
        Ok(())
    }

    pub fn visit_print_statement(&mut self, stmt: &PrintStatement) -> (r: Result<
        (),
        CompilerError,
    >)
        requires
            old(self).wf(),
        ensures
            final(self).wf(),
            ended(r, final(self)@, print_statement(old(self)@, *stmt)),
    {
        match self.visit_expression(&stmt.expr) {
            Err(e) => {
                return Err(e);
            },
            Ok(_) => {},
        }
        self.emit_byte(OP_PRINT);
        Ok(())
    }

    pub fn visit_block_statement(&mut self, stmt: &BlockStatement) -> (r: Result<
        (),
        CompilerError,
    >)
        requires
            old(self).wf(),
        ensures
            final(self).wf(),
            ended(r, final(self)@, block_statement(old(self)@, *stmt)),
        decreases stmt, 2nat,
    {
        let mut old_context = Context::Block;
        core::mem::swap(&mut self.context, &mut old_context);
        self.enter_scope(false);
        match self.visit_statements(&stmt.statements) {
            Err(e) => {
                return Err(e);
            },
            Ok(_) => {},
        }
        proof {
            self.env.lemma_view();
        }
        let ghost inner = self@;
        let locals = self.env.variables.len();
        let mut i: usize = 0;
        while i < locals
            invariant
                i <= locals,
                self.wf(),
                self@ == emit(inner, pops(i as nat)),
            decreases locals - i,
        {
            self.emit_byte(OP_POP);
            i = i + 1;
            assert(self@.code =~= inner.code + pops(i as nat));
        }
        match self.leave_scope() {
            Err(e) => {
                return Err(e);
            },
            Ok(_) => {},
        }
        self.context = old_context;
        Ok(())
    }

    pub fn visit_expression_statement(&mut self, stmt: &ExpressionStatement) -> (r: Result<
        (),
        CompilerError,
    >)
        requires
            old(self).wf(),
        ensures
            final(self).wf(),
            ended(r, final(self)@, expression_statement(old(self)@, *stmt)),
    {
        match self.visit_expression(&stmt.expr) {
            Err(e) => {
                return Err(e);
            },
            Ok(_) => {},
        }
        self.emit_byte(OP_POP);
        Ok(())
    }

    pub fn visit_return_statement(&mut self, stmt: &ReturnStatement) -> (r: Result<
        (),
        CompilerError,
    >)
        requires
            old(self).wf(),
        ensures
            final(self).wf(),
            ended(r, final(self)@, return_statement(old(self)@, *stmt)),
    {
        if let Some(value) = &stmt.value {
            match self.visit_expression(value) {
                Err(e) => {
                    return Err(e);
                },
                Ok(_) => {},
            }
            self.emit_bytes(OP_RETURN, OP_END_FUNCTION);
        } else {
            self.emit_byte(OP_END_FUNCTION);
        }
        Ok(())
    }

    pub fn visit_if_statement(&mut self, stmt: &IfStatement) -> (r: Result<(), CompilerError>)
        requires
            old(self).wf(),
        ensures
            final(self).wf(),
            ended(r, final(self)@, if_statement(old(self)@, *stmt)),
        decreases stmt, 2nat,
    {
        match self.visit_expression(&stmt.condition) {
            Err(e) => {
                return Err(e);
            },
            Ok(_) => {},
        }
        let bytes = vec![OP_JUMP_IF_FALSE, 0u8, 0u8, 0u8, 0u8];
        assert(bytes@ =~= seq![OP_JUMP_IF_FALSE] + placeholder());
        self.put(bytes);
        let loc = self.code.len() - 4;
        match self.visit_local_statement(&stmt.body) {
            Err(e) => {
                return Err(e);
            },
            Ok(_) => {},
        }
        self.visit_if_end(&stmt.alternative, loc)
    }

    /// What follows the body of a conditional.
    fn visit_if_end(&mut self, alternative: &Option<Statement>, loc: usize) -> (r: Result<
        (),
        CompilerError,
    >)
        requires
            old(self).wf(),
        ensures
            final(self).wf(),
            ended(r, final(self)@, if_end(old(self)@, *alternative, loc as int)),
        decreases alternative, 1nat,
    {
        if let Some(alt) = alternative {
            let loc_else = self.emit_jump();
            match self.back_patch(loc) {
                Err(e) => {
                    return Err(e);
                },
                Ok(_) => {},
            }
            match self.visit_local_statement(alt) {
                Err(e) => {
                    return Err(e);
                },
                Ok(_) => {},
            }
            self.back_patch(loc_else)
        } else {
            self.back_patch(loc)
        }
    }

    pub fn visit_loop_statement(&mut self, stmt: &LoopStatement) -> (r: Result<(), CompilerError>)
        requires
            old(self).wf(),
        ensures
            final(self).wf(),
            ended(r, final(self)@, loop_statement(old(self)@, *stmt)),
        decreases stmt, 2nat,
    {
        self.break_stmt.push(Vec::new());
        assert(places(self.break_stmt@) =~= places(old(self).break_stmt@).push(Seq::empty()));
        let loc = self.code.len();
        match self.visit_local_statement(&stmt.body) {
            Err(e) => {
                return Err(e);
            },
            Ok(_) => {},
        }
        let ghost body = self@;
        let bits = match from_index(loc) {
            None => {
                return Err(CompilerError::new("Program is too large for its jump targets"));
            },
            Some(bits) => bits,
        };
        if self.break_stmt.len() == 0 {
            return Err(CompilerError::new("Break statement outside loop is not allowed"));
        }
        let beg = Self::convert_number_to_bytes(bits);
        let bytes = vec![OP_JUMP, beg[0], beg[1], beg[2], beg[3]];
        assert(bytes@ =~= seq![OP_JUMP] + target_bytes(loc as nat));
        self.put(bytes);
        let ghost lists = places(self.break_stmt@);
        let cont = match self.break_stmt.pop() {
            Some(cont) => cont,
            None => Vec::new(),
        };
        assert(places(self.break_stmt@) =~= lists.drop_last());
        assert(cont@ == lists.last());
        self.patch_all(&cont)
    }

    /// Patches the places in their order.
    fn patch_all(&mut self, cont: &Vec<usize>) -> (r: Result<(), CompilerError>)
        ensures
            ended(r, final(self)@, patches(old(self)@, cont@, cont.len() as int)),
            final(self).heap_manager == old(self).heap_manager,
    {
        let ghost base = self@;
        let mut i: usize = 0;
        while i < cont.len()
            invariant
                i <= cont.len(),
                base == old(self)@,
                self.heap_manager == old(self).heap_manager,
                patches(base, cont@, i as int) == Ok::<Draft, Seq<char>>(self@),
            decreases cont.len() - i,
        {
            let ghost before = self@;
            let patched = self.back_patch(cont[i]);
            proof {
                assert(patches(base, cont@, i + 1) == patch(before, cont@[i as int] as int));
            }
            match patched {
                Err(e) => {
                    proof {
                        lemma_patches_fail(base, cont@, i as int + 1, cont.len() as int);
                    }
                    return Err(e);
                },
                Ok(_) => {},
            }
            i = i + 1;
        }
        Ok(())
    }

    pub fn visit_declaration_statement(&mut self, stmt: &DeclarationStatement) -> (r: Result<
        (),
        CompilerError,
    >)
        requires
            old(self).wf(),
        ensures
            final(self).wf(),
            ended(r, final(self)@, declaration(old(self)@, *stmt)),
    {
        let global = match self.context {
            Context::Global => true,
            _ => false,
        };
        if global {
            if let Some(val) = &stmt.value {
                match self.visit_expression(val) {
                    Err(e) => {
                        return Err(e);
                    },
                    Ok(_) => {},
                }
            } else {
                self.emit_null();
            }
            self.emit_byte(OP_DECLARE_GLOBAL);
            self.emit_hash(stmt.variable.clone())
        } else if let Some(val) = &stmt.value {
            match self.visit_expression(val) {
                Err(e) => {
                    return Err(e);
                },
                Ok(_) => {},
            }
            if self.env.compute_var_key() >= 256 {
                return Err(CompilerError::new("Too many local variables"));
            }
            match stmt.kind {
                DeclarationKind::Const => self.env.set_constant(stmt.variable.clone()),
                DeclarationKind::Var => self.env.set_variable(stmt.variable.clone()),
            }
            Ok(())
        } else {
            match stmt.kind {
                DeclarationKind::Const => {
                    return Err(
                        CompilerError::new("Cannot declare a variable with no value as const"),
                    );
                },
                DeclarationKind::Var => {},
            }
            if self.env.compute_var_key() >= 256 {
                return Err(CompilerError::new("Too many local variables"));
            }
            self.env.set_variable(stmt.variable.clone());
            self.emit_byte(OP_DECLARE);
            Ok(())
        }
    }

    pub fn visit_multi_declaration(&mut self, stmt: &MultiDeclarationStatement) -> (r: Result<
        (),
        CompilerError,
    >)
        requires
            old(self).wf(),
        ensures
            final(self).wf(),
            ended(
                r,
                final(self)@,
                declarations(old(self)@, stmt.declarations, stmt.declarations.len() as nat),
            ),
    {
        let mut i: usize = 0;
        while i < stmt.declarations.len()
            invariant
                i <= stmt.declarations.len(),
                self.wf(),
                declarations(old(self)@, stmt.declarations, i as nat) == Ok::<Draft, Seq<char>>(
                    self@,
                ),
            decreases stmt.declarations.len() - i,
        {
            match self.visit_declaration_statement(&stmt.declarations[i]) {
                Err(e) => {
                    proof {
                        lemma_declarations_fail(
                            old(self)@,
                            stmt.declarations,
                            i as nat + 1,
                            stmt.declarations.len() as nat,
                        );
                    }
                    return Err(e);
                },
                Ok(_) => {},
            }
            i = i + 1;
        }
        Ok(())
    }

    /// The constant of a function, whose offset waits to be patched, and the
    /// signature of the function.
    fn declare_function_constant(&mut self, func_dec: &FunctionDeclarationStatement) -> (addr:
        usize)
        requires
            func_dec.params.len() <= 255,
        ensures
            addr == old(self)@.code.len() + 2,
            final(self).heap_manager == old(self).heap_manager,
            final(self)@ == (Draft {
                active_func_args: declare_signature(
                    old(self)@.active_func_args,
                    func_dec.name.name@,
                    parameter_names(func_dec.params@),
                ),
                ..emit(
                    old(self)@,
                    seq![OP_PUSH, Type::Function.tag()] + placeholder() + seq![
                        func_dec.params.len() as u8,
                    ],
                )
            }),
    {
        let bytes = vec![
            OP_PUSH,
            Type::Function.to_byte(),
            0u8,
            0u8,
            0u8,
            0u8,
            func_dec.params.len() as u8,
        ];
        assert(bytes@ =~= seq![OP_PUSH, Type::Function.tag()] + placeholder() + seq![
            func_dec.params.len() as u8,
        ]);
        self.put(bytes);
        let mut names: Vec<String> = Vec::new();
        let mut p: usize = 0;
        while p < func_dec.params.len()
            invariant
                p <= func_dec.params.len(),
                names.len() == p,
                forall|j: int| 0 <= j < p ==> names[j]@ == func_dec.params[j].name@,
            decreases func_dec.params.len() - p,
        {
            names.push(func_dec.params[p].name.clone());
            p = p + 1;
        }
        assert(texts(names@) =~= parameter_names(func_dec.params@));
        self.declare_function(func_dec.name.name.clone(), names);
        self.code.len() - 5
    }

    /// The body of a function between the jump over it and its end.
    fn visit_function_rest(&mut self, func_dec: &FunctionDeclarationStatement, addr: usize) -> (r:
        Result<(), CompilerError>)
        requires
            old(self).wf(),
        ensures
            final(self).wf(),
            ended(
                r,
                final(self)@,
                match patch(jump(old(self)@), addr as int) {
                    Err(e) => Err(e),
                    Ok(m) => match statement(m, func_dec.body) {
                        Err(e) => Err(e),
                        Ok(m) => patch(
                            emit(m, seq![OP_END_FUNCTION]),
                            (old(self)@.code.len() + 1) as int,
                        ),
                    },
                },
            ),
    {
        let loc = self.emit_jump();
        match self.back_patch(addr) {
            Err(e) => {
                return Err(e);
            },
            Ok(_) => {},
        }
        match self.visit_local_statement(&func_dec.body) {
            Err(e) => {
                return Err(e);
            },
            Ok(_) => {},
        }
        self.emit_byte(OP_END_FUNCTION);
        self.back_patch(loc)
    }

    pub fn visit_function_declaration(&mut self, func_dec: &FunctionDeclarationStatement) -> (r:
        Result<(), CompilerError>)
        requires
            old(self).wf(),
        ensures
            final(self).wf(),
            ended(r, final(self)@, function_declaration(old(self)@, *func_dec)),
    {
        if func_dec.params.len() > 255 {
            return Err(CompilerError::new("Too many parameters"));
        }
        let mut old_context = Context::Function(func_dec.name.name.clone());
        core::mem::swap(&mut self.context, &mut old_context);
        let addr = self.declare_function_constant(func_dec);
        self.emit_byte(OP_DECLARE_GLOBAL);
        match self.emit_hash(func_dec.name.name.clone()) {
            Err(e) => {
                return Err(e);
            },
            Ok(_) => {},
        }
        let ghost declared = self@;
        match self.visit_function_rest(func_dec, addr) {
            Err(e) => {
                return Err(e);
            },
            Ok(_) => {},
        }
        self.context = old_context;
        Ok(())
    }

    /// The code of a statement of the top of a program.
    pub fn visit_statement(&mut self, stmt: &GlobalStatement) -> (r: Result<(), CompilerError>)
        requires
            old(self).wf(),
        ensures
            final(self).wf(),
            ended(r, final(self)@, global_statement(old(self)@, *stmt)),
    {
        match stmt {
            GlobalStatement::Statement(value) => self.visit_local_statement(value),
            GlobalStatement::FunctionDeclaration(value) => self.visit_function_declaration(value),
        }
    }

    /// The code of a program.
    pub fn generate(&mut self, stmts: &Vec<GlobalStatement>) -> (r: Result<(), CompilerError>)
        requires
            old(self).wf(),
        ensures
            final(self).wf(),
            ended(r, final(self)@, program(old(self)@, stmts@, stmts.len() as int)),
    {
        let mut i: usize = 0;
        while i < stmts.len()
            invariant
                i <= stmts.len(),
                self.wf(),
                program(old(self)@, stmts@, i as int) == Ok::<Draft, Seq<char>>(self@),
            decreases stmts.len() - i,
        {
            match self.visit_statement(&stmts[i]) {
                Err(e) => {
                    proof {
                        lemma_program_fail(old(self)@, stmts@, i as int + 1, stmts.len() as int);
                    }
                    return Err(e);
                },
                Ok(_) => {},
            }
            i = i + 1;
        }
        Ok(())
    }
}

pub proof fn lemma_signature_position_is(
    signatures: Signatures,
    name: Seq<char>,
    from: int,
    at: int,
)
    requires
        0 <= from <= at <= signatures.len(),
        at < signatures.len() ==> signatures[at].0 == name,
        forall|i: int| from <= i < at ==> signatures[i].0 != name,
    ensures
        signature_position(signatures, name, from) == at,
    decreases at - from,
{
    if from < at {
        lemma_signature_position_is(signatures, name, from + 1, at);
    }
}

/// Where the first statements fail, all of them fail, with the same error.
pub proof fn lemma_statements_fail(d: Draft, stmts: Vec<Statement>, n: nat, m: nat)
    requires
        statements(d, stmts, n) is Err,
        0 < n <= m <= stmts.len(),
    ensures
        statements(d, stmts, m) == statements(d, stmts, n),
    decreases m - n,
{
    if n < m {
        lemma_statements_fail(d, stmts, n, (m - 1) as nat);
    }
}

pub proof fn lemma_declarations_fail(d: Draft, decls: Vec<DeclarationStatement>, n: nat, m: nat)
    requires
        declarations(d, decls, n) is Err,
        0 < n <= m <= decls.len(),
    ensures
        declarations(d, decls, m) == declarations(d, decls, n),
    decreases m - n,
{
    if n < m {
        lemma_declarations_fail(d, decls, n, (m - 1) as nat);
    }
}

pub proof fn lemma_patches_fail(d: Draft, targets: Seq<usize>, n: int, m: int)
    requires
        patches(d, targets, n) is Err,
        0 < n <= m,
    ensures
        patches(d, targets, m) == patches(d, targets, n),
    decreases m - n,
{
    if n < m {
        lemma_patches_fail(d, targets, n, m - 1);
    }
}

pub proof fn lemma_program_fail(d: Draft, stmts: Seq<GlobalStatement>, n: int, m: int)
    requires
        program(d, stmts, n) is Err,
        0 < n <= m,
    ensures
        program(d, stmts, m) == program(d, stmts, n),
    decreases m - n,
{
    if n < m {
        lemma_program_fail(d, stmts, n, m - 1);
    }
}

/// Where the first expressions fail, all of them fail, with the same error.
pub proof fn lemma_expressions_fail(d: Draft, exprs: Vec<Expression>, n: nat, m: nat)
    requires
        expressions(d, exprs, n) is Err,
        0 < n <= m <= exprs.len(),
    ensures
        expressions(d, exprs, m) == expressions(d, exprs, n),
    decreases m - n,
{
    if n < m {
        lemma_expressions_fail(d, exprs, n, (m - 1) as nat);
    }
}

pub proof fn lemma_name_position_is(names: Seq<Seq<char>>, name: Seq<char>, from: int, at: int)
    requires
        0 <= from <= at <= names.len(),
        at < names.len() ==> names[at] == name,
        forall|i: int| from <= i < at ==> names[i] != name,
    ensures
        name_position(names, name, from) == at,
    decreases at - from,
{
    if from < at {
        lemma_name_position_is(names, name, from + 1, at);
    }
}

/// What compiling gives: the code, and the heap that holds the texts of the
/// program.
#[derive(Debug)]
pub struct Compiled {
    pub code: Vec<Bytecode>,
    pub heap_manager: HeapManager,
}

/// True when a compilation of statements ended as it must: with the report
/// of the checks, where they found errors; else with the code and the heap
/// of the draft of the program, or with its error.
pub open spec fn compiled(d: Draft, stmts: Seq<GlobalStatement>, r: Result<Compiled, String>) -> bool {
    if semantic_errors(stmts).len() > 0 {
        r matches Err(text) && text@ == spec_report(
            semantic_errors(stmts),
            semantic_errors(stmts).len() as int,
        )
    } else {
        match program(d, stmts, stmts.len() as int) {
            Ok(m) => r matches Ok(done) && done.code@ == m.code && done.heap_manager.outline()
                == m.heap && done.heap_manager.wf(),
            Err(message) => r matches Err(text) && text@ == "Compiler Error: "@ + message,
        }
    }
}

/// True when a compilation of tokens ended as it must: with the error of
/// the parser, or as the compilation of statements that say what the
/// grammar reads in the tokens.
pub open spec fn compiled_from(
    d: Draft,
    input: Input,
    pos: int,
    r: Result<Compiled, String>,
) -> bool {
    match program_rest(input, pos, Seq::empty()) {
        Err(message) => r matches Err(text) && text@ == "Parser Error: "@ + message,
        Ok((said, _)) => exists|stmts: Seq<GlobalStatement>| #[trigger]
            global_clauses(stmts) == said && compiled(d, stmts, r),
    }
}

impl Compiler {
    /// Checks and compiles the statements of a program.
    pub fn compile_program(self, stmts: &Vec<GlobalStatement>) -> (r: Result<Compiled, String>)
        requires
            self.wf(),
        ensures
            compiled(self@, stmts@, r),
            self@.code.len() == 0 && self@.break_stmt.len() == 0 ==> (r matches Ok(done)
                ==> well_laid(done.code@)),
    {
        proof {
            if self@.code.len() == 0 && self@.break_stmt.len() == 0 && program(
                self@,
                stmts@,
                stmts.len() as int,
            ) is Ok {
                lemma_jumps_closed(self@, stmts@);
            }
        }
        match run_all_semantic_checks(stmts) {
            Err(text) => {
                return Err(text);
            },
            Ok(_) => {},
        }
        let mut compiler = self;
        match compiler.generate(stmts) {
            Err(e) => Err(e.get_message()),
            Ok(_) => Ok(Compiled { code: compiler.code, heap_manager: compiler.heap_manager }),
        }
    }

    /// Parses, checks and compiles a program.
    pub fn compile(self, parser: Parser) -> (r: Result<Compiled, String>)
        requires
            self.wf(),
            parser.wf(),
        ensures
            compiled_from(self@, parser.input(), parser.current as int, r),
            self@.code.len() == 0 && self@.break_stmt.len() == 0 ==> (r matches Ok(done)
                ==> well_laid(done.code@)),
    {
        let ghost input = parser.input();
        let ghost pos = parser.current as int;
        let mut parser = parser;
        match parser.parse_program() {
            Ok(program) => {
                let r = self.compile_program(&program);
                assert(global_clauses(program@) == program_rest(input, pos, Seq::empty())->Ok_0.0
                    && compiled(self@, program@, r));
                r
            },
            Err(e) => Err(e.get_message()),
        }
    }
}

} // verus!
