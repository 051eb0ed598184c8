use vstd::prelude::*;
use vstd::utf8::*;
use crate::ast::expression::{
    ArrayExpression, AssignmentExpression, BinaryExpression, CallExpression, Expression, Identifier,
    MemberExpression, ObjectExpression, Operator, UnaryExpression,
};
use crate::ast::statement::{
    BlockStatement, DeclarationStatement, ExpressionStatement, FunctionDeclarationStatement,
    GlobalStatement, IfStatement, LoopStatement, PrintStatement, ReturnStatement, Statement,
};
use crate::bytecode::{
    spec_slot_bytes, OP_ACCESS, OP_ADD, OP_ALLOCATE, OP_ALLOCATE_ARRAY, OP_AND, OP_CALL,
    OP_DECLARE, OP_DECLARE_GLOBAL, OP_DIV, OP_END_FUNCTION, OP_EQ, OP_GE, OP_GET, OP_GET_GLOBAL,
    OP_GR, OP_JUMP, OP_JUMP_IF_FALSE, OP_LE, OP_LS, OP_MUL, OP_NE, OP_OR, OP_POP, OP_POW, OP_PRINT,
    OP_PUSH, OP_RETURN, OP_SET, OP_SET_GLOBAL, OP_SET_PROPERTY, OP_SUB, OP_UNARY_NOT, OP_UNARY_SUB,
};
use crate::bytes::{overwrite, spec_word_bytes};
use crate::env::{scopes_bind, scopes_get, scopes_slot, Scope};
use crate::heap::{interned_content, spec_intern, HeapOutline};
use crate::number::{index_pattern, spec_le_bytes, EXACT_LIMIT};
use crate::types::Type;

verus! {

/// Where the compiler stands: at the top of the program, in a block, or in
/// the body of the function of a name.
pub enum Scene {
    Global,
    Block,
    Function(Seq<char>),
}

/// The parameters of the functions that were declared, by name.
pub type Signatures = Seq<(Seq<char>, Seq<Seq<char>>)>;

/// What the compiler has made so far: the code, the scopes (innermost last),
/// the jumps of each open loop that wait for their target, the names of the
/// globals by slot, the parameters of the functions, and what interning
/// reads of the heap.
pub struct Draft {
    pub heap: HeapOutline,
    pub code: Seq<u8>,
    pub scopes: Seq<Scope>,
    pub break_stmt: Seq<Seq<usize>>,
    pub context: Scene,
    pub globals: Seq<Seq<char>>,
    pub active_func_args: Signatures,
}

/// A draft, or the message of the error that ended the compilation.
pub type Outcome = Result<Draft, Seq<char>>;

pub open spec fn emit(d: Draft, bytes: Seq<u8>) -> Draft {
    Draft { code: d.code + bytes, ..d }
}

/// Four bytes that wait for a jump target.
pub open spec fn placeholder() -> Seq<u8> {
    seq![0u8, 0u8, 0u8, 0u8]
}

/// The four bytes under which a jump target, or a count, is written.
pub open spec fn target_bytes(target: nat) -> Seq<u8> {
    spec_le_bytes(index_pattern(target))
}

/// Writes the length of the code, which is where the next instruction will
/// stand, over the four bytes at `index`.
pub open spec fn patch(d: Draft, index: int) -> Outcome {
    if d.code.len() >= EXACT_LIMIT {
        Err("Program is too large for its jump targets"@)
    } else if index < 0 || index + 4 > d.code.len() {
        Err("Something went wrong when compiling"@)
    } else {
        Ok(Draft { code: overwrite(d.code, index, target_bytes(d.code.len())), ..d })
    }
}

/// Patches the first `n` of the places in their order.
pub open spec fn patches(d: Draft, places: Seq<usize>, n: int) -> Outcome
    decreases n,
{
    if n <= 0 {
        Ok(d)
    } else {
        match patches(d, places, n - 1) {
            Ok(m) => patch(m, places[n - 1] as int),
            Err(e) => Err(e),
        }
    }
}

/// An unconditional jump whose target waits to be patched; the target
/// stands one byte after where the jump starts.
pub open spec fn jump(d: Draft) -> Draft {
    emit(d, seq![OP_JUMP] + placeholder())
}

/// The index of the first occurrence of a name at or after `from`, or the
/// number of names.
pub open spec fn name_position(names: Seq<Seq<char>>, name: Seq<char>, from: int) -> int
    decreases names.len() - from,
{
    if from < 0 || from >= names.len() {
        names.len() as int
    } else if names[from] == name {
        from
    } else {
        name_position(names, name, from + 1)
    }
}

/// Emits the slot of a global: that of its name, or, for a new name, the
/// next slot, which the name then takes.
pub open spec fn hash(d: Draft, name: Seq<char>) -> Outcome {
    let at = name_position(d.globals, name, 0);
    if at > 0xffff {
        Err("Too many global variables"@)
    } else if at < d.globals.len() {
        Ok(emit(d, spec_slot_bytes(at as u16)))
    } else {
        Ok(Draft { globals: d.globals.push(name), ..emit(d, spec_slot_bytes(at as u16)) })
    }
}

pub open spec fn number(d: Draft, bits: u32) -> Draft {
    emit(d, seq![OP_PUSH, Type::Number.tag()] + spec_le_bytes(bits))
}

/// A count as a number constant.
pub open spec fn count(d: Draft, n: nat) -> Outcome {
    if n >= EXACT_LIMIT {
        Err("Too many items in a literal"@)
    } else {
        Ok(number(d, index_pattern(n)))
    }
}

pub open spec fn operator_code(operator: Operator) -> Option<u8> {
    match operator {
        Operator::Plus => Some(OP_ADD),
        Operator::Minus => Some(OP_SUB),
        Operator::Div => Some(OP_DIV),
        Operator::Mul => Some(OP_MUL),
        Operator::Pow => Some(OP_POW),
        Operator::Eq => Some(OP_EQ),
        Operator::NE => Some(OP_NE),
        Operator::And => Some(OP_AND),
        Operator::Or => Some(OP_OR),
        Operator::Ge => Some(OP_GE),
        Operator::Le => Some(OP_LE),
        Operator::Greater => Some(OP_GR),
        Operator::Less => Some(OP_LS),
        Operator::Mod => None,
    }
}

pub open spec fn unary_code(operator: Operator) -> Option<u8> {
    match operator {
        Operator::Minus => Some(OP_UNARY_SUB),
        Operator::NE => Some(OP_UNARY_NOT),
        _ => None,
    }
}

/// Reads a name: a local by its slot, or else a global.
pub open spec fn read_name(d: Draft, name: Seq<char>) -> Outcome {
    match scopes_get(d.scopes, name) {
        Some(variable) => Ok(emit(d, seq![OP_PUSH, OP_GET, variable.key])),
        None => hash(emit(d, seq![OP_PUSH, OP_GET_GLOBAL]), name),
    }
}

/// Writes a name: a local by its slot, unless it is a constant, or else a
/// global.
pub open spec fn write_name(d: Draft, name: Seq<char>) -> Outcome {
    match scopes_get(d.scopes, name) {
        Some(variable) => if variable.is_constant {
            Err("Cannot reassign a variable declared as const"@)
        } else {
            Ok(emit(d, seq![OP_SET, variable.key]))
        },
        None => hash(emit(d, seq![OP_SET_GLOBAL]), name),
    }
}

/// A string constant: the text is interned for the compiler and the handle
/// is written after the kind.
pub open spec fn string_constant(d: Draft, text: Seq<char>) -> Outcome {
    let interned = spec_intern(
        d.heap,
        interned_content(text),
        (encode_utf8(text).len() + 2) as nat,
    );
    match interned.1 {
        Ok(ptr) => Ok(
            emit(
                Draft { heap: interned.0, ..d },
                seq![OP_PUSH, Type::String.tag()] + spec_word_bytes(ptr),
            ),
        ),
        Err(_) => Err("OOM: Max heap size has been reached"@),
    }
}

/// The code of an expression, after the code so far.
pub open spec fn expression(d: Draft, expr: Expression) -> Outcome
    decreases expr, 0nat,
{
    match expr {
        Expression::Nil => Ok(emit(d, seq![OP_PUSH, Type::Null.tag()])),
        Expression::Bool(value) => Ok(
            emit(
                d,
                seq![
                    OP_PUSH,
                    Type::Boolean.tag(),
                    if value {
                        1u8
                    } else {
                        0u8
                    },
                ],
            ),
        ),
        Expression::Number(bits) => Ok(number(d, bits)),
        Expression::String(text) => string_constant(d, text@),
        Expression::Identifier(name) => read_name(d, name@),
        Expression::Call(call) => call_expression(d, *call),
        Expression::Assigment(assignment) => assignment_expression(d, *assignment),
        Expression::Binary(binary) => binary_expression(d, *binary),
        Expression::Unary(unary) => unary_expression(d, *unary),
        Expression::Group(group) => expression(d, group.expr),
        Expression::Member(member) => member_expression(d, *member),
        Expression::Object(object) => object_expression(d, *object),
        Expression::Array(array) => array_expression(d, *array),
    }
}

/// A call: the arguments in their order, the callee, the call.
pub open spec fn call_expression(d: Draft, call: CallExpression) -> Outcome
    decreases call, 2nat,
{
    match expressions(d, call.args, call.args.len() as nat) {
        Err(e) => Err(e),
        Ok(m) => match expression(m, call.callee) {
            Err(e) => Err(e),
            Ok(m) => Ok(emit(m, seq![OP_CALL])),
        },
    }
}

/// An assignment: the value, then the write of a name, or the object, the
/// key and the write of a property.
pub open spec fn assignment_expression(d: Draft, assignment: AssignmentExpression) -> Outcome
    decreases assignment, 2nat,
{
    match expression(d, assignment.value) {
        Err(e) => Err(e),
        Ok(m) => match assignment.assignee {
            Expression::Identifier(name) => write_name(m, name@),
            Expression::Member(member) => match expression(m, member.callee) {
                Err(e) => Err(e),
                Ok(m) => match expression(m, member.property) {
                    Err(e) => Err(e),
                    Ok(m) => Ok(emit(m, seq![OP_SET_PROPERTY])),
                },
            },
            _ => Err("Incorrect lvalue"@),
        },
    }
}

/// The left operand, the right operand, the operation.
pub open spec fn binary_expression(d: Draft, binary: BinaryExpression) -> Outcome
    decreases binary, 2nat,
{
    match expression(d, binary.left) {
        Err(e) => Err(e),
        Ok(m) => match expression(m, binary.right) {
            Err(e) => Err(e),
            Ok(m) => match operator_code(binary.operator) {
                Some(code) => Ok(emit(m, seq![code])),
                None => Err("Operator not supported"@),
            },
        },
    }
}

/// The operand, the operation.
pub open spec fn unary_expression(d: Draft, unary: UnaryExpression) -> Outcome
    decreases unary, 2nat,
{
    match expression(d, unary.expr) {
        Err(e) => Err(e),
        Ok(m) => match unary_code(unary.operator) {
            Some(code) => Ok(emit(m, seq![code])),
            None => Err("Other unary operator not supported"@),
        },
    }
}

/// The key, the object, the access.
pub open spec fn member_expression(d: Draft, member: MemberExpression) -> Outcome
    decreases member, 2nat,
{
    match expression(d, member.property) {
        Err(e) => Err(e),
        Ok(m) => match expression(m, member.callee) {
            Err(e) => Err(e),
            Ok(m) => Ok(emit(m, seq![OP_ACCESS])),
        },
    }
}

/// The keys in their order, the values in their order, the number of the
/// keys, the allocation.
pub open spec fn object_expression(d: Draft, object: ObjectExpression) -> Outcome
    decreases object, 2nat,
{
    match expressions(d, object.properties, object.properties.len() as nat) {
        Err(e) => Err(e),
        Ok(m) => match expressions(m, object.values, object.values.len() as nat) {
            Err(e) => Err(e),
            Ok(m) => match count(m, object.properties.len() as nat) {
                Err(e) => Err(e),
                Ok(m) => Ok(emit(m, seq![OP_ALLOCATE])),
            },
        },
    }
}

/// The values in their order, their number, the allocation.
pub open spec fn array_expression(d: Draft, array: ArrayExpression) -> Outcome
    decreases array, 2nat,
{
    match expressions(d, array.values, array.values.len() as nat) {
        Err(e) => Err(e),
        Ok(m) => match count(m, array.values.len() as nat) {
            Err(e) => Err(e),
            Ok(m) => Ok(emit(m, seq![OP_ALLOCATE_ARRAY])),
        },
    }
}

/// The code of the first `n` of the expressions, in their order.
pub open spec fn expressions(d: Draft, exprs: Vec<Expression>, n: nat) -> Outcome
    decreases exprs, n,
{
    if n == 0 || n > exprs.len() {
        Ok(d)
    } else {
        match expressions(d, exprs, (n - 1) as nat) {
            Err(e) => Err(e),
            Ok(m) => expression(m, exprs[n - 1]),
        }
    }
}

/// `n` instructions that discard the top of the stack.
pub open spec fn pops(n: nat) -> Seq<u8> {
    Seq::new(n, |i: int| OP_POP)
}

/// The index of the first signature of a name at or after `from`, or the
/// number of signatures.
pub open spec fn signature_position(signatures: Signatures, name: Seq<char>, from: int) -> int
    decreases signatures.len() - from,
{
    if from < 0 || from >= signatures.len() {
        signatures.len() as int
    } else if signatures[from].0 == name {
        from
    } else {
        signature_position(signatures, name, from + 1)
    }
}

/// The signatures after a function is declared: the signature of its name
/// is replaced, or one is added after the last.
pub open spec fn declare_signature(
    signatures: Signatures,
    name: Seq<char>,
    params: Seq<Seq<char>>,
) -> Signatures {
    let at = signature_position(signatures, name, 0);
    if at < signatures.len() {
        signatures.update(at, (name, params))
    } else {
        signatures.push((name, params))
    }
}

/// The scopes after the first `n` of the names are bound as variables.
pub open spec fn bind_all(scopes: Seq<Scope>, names: Seq<Seq<char>>, n: int) -> Seq<Scope>
    decreases n,
{
    if n <= 0 {
        scopes
    } else {
        scopes_bind(bind_all(scopes, names, n - 1), names[n - 1], false)
    }
}

/// The scopes of the body of a function: a new frame whose first slot is
/// kept for the base of the caller's frame, and then the parameters.
pub open spec fn frame_scopes(scopes: Seq<Scope>, params: Seq<Seq<char>>) -> Seq<Scope> {
    bind_all(
        scopes_bind(
            scopes.push(Scope { frame_beginning: true, variables: Seq::empty() }),
            "__offset__"@,
            false,
        ),
        params,
        params.len() as int,
    )
}

/// Leaves the innermost scope.
pub open spec fn leave(d: Draft) -> Outcome {
    if d.scopes.len() < 2 {
        Err("Something went wrong when compiling"@)
    } else {
        Ok(Draft { scopes: d.scopes.drop_last(), ..d })
    }
}

/// A declaration: at the top of the program the value, or null, goes to the
/// slot of a global; elsewhere the value, or null, stays on the stack as the
/// next local of the frame.
pub open spec fn declaration(d: Draft, decl: DeclarationStatement) -> Outcome {
    if d.context is Global {
        let valued = match decl.value {
            Some(value) => expression(d, value),
            None => Ok(emit(d, seq![OP_PUSH, Type::Null.tag()])),
        };
        match valued {
            Err(e) => Err(e),
            Ok(m) => hash(emit(m, seq![OP_DECLARE_GLOBAL]), decl.variable@),
        }
    } else {
        match decl.value {
            Some(value) => match expression(d, value) {
                Err(e) => Err(e),
                Ok(m) => if scopes_slot(m.scopes) >= 256 {
                    Err("Too many local variables"@)
                } else {
                    Ok(
                        Draft {
                            scopes: scopes_bind(
                                m.scopes,
                                decl.variable@,
                                decl.kind is Const,
                            ),
                            ..m
                        },
                    )
                },
            },
            None => if decl.kind is Const {
                Err("Cannot declare a variable with no value as const"@)
            } else if scopes_slot(d.scopes) >= 256 {
                Err("Too many local variables"@)
            } else {
                Ok(
                    emit(
                        Draft { scopes: scopes_bind(d.scopes, decl.variable@, false), ..d },
                        seq![OP_DECLARE],
                    ),
                )
            },
        }
    }
}

/// The first `n` of the declarations, in their order.
pub open spec fn declarations(d: Draft, decls: Vec<DeclarationStatement>, n: nat) -> Outcome
    decreases n,
{
    if n == 0 || n > decls.len() {
        Ok(d)
    } else {
        match declarations(d, decls, (n - 1) as nat) {
            Err(e) => Err(e),
            Ok(m) => declaration(m, decls[n - 1]),
        }
    }
}

/// A jump out of the innermost loop, whose target waits until the loop ends.
pub open spec fn break_jump(d: Draft) -> Outcome {
    if d.break_stmt.len() == 0 {
        Err("Break statement outside loop is not allowed"@)
    } else if d.code.len() + 1 >= EXACT_LIMIT {
        Err("Program is too large for its jump targets"@)
    } else {
        let m = emit(d, seq![OP_JUMP]);
        Ok(
            Draft {
                break_stmt: m.break_stmt.update(
                    m.break_stmt.len() - 1,
                    m.break_stmt.last().push(m.code.len() as usize),
                ),
                ..emit(m, placeholder())
            },
        )
    }
}

/// The end of a loop: a jump back to where the loop begins, and the target
/// of every jump out of the loop.
pub open spec fn loop_end(d: Draft, begin: nat) -> Outcome {
    if begin >= EXACT_LIMIT {
        Err("Program is too large for its jump targets"@)
    } else if d.break_stmt.len() == 0 {
        Err("Break statement outside loop is not allowed"@)
    } else {
        let m = emit(d, seq![OP_JUMP] + target_bytes(begin));
        patches(
            Draft { break_stmt: m.break_stmt.drop_last(), ..m },
            m.break_stmt.last(),
            m.break_stmt.last().len() as int,
        )
    }
}

/// The value, the print.
pub open spec fn print_statement(d: Draft, print: PrintStatement) -> Outcome {
    match expression(d, print.expr) {
        Err(e) => Err(e),
        Ok(m) => Ok(emit(m, seq![OP_PRINT])),
    }
}

/// The value, which is then discarded.
pub open spec fn expression_statement(d: Draft, stmt: ExpressionStatement) -> Outcome {
    match expression(d, stmt.expr) {
        Err(e) => Err(e),
        Ok(m) => Ok(emit(m, seq![OP_POP])),
    }
}

/// The value, if there is one, and its return; then the end of the function.
pub open spec fn return_statement(d: Draft, ret: ReturnStatement) -> Outcome {
    match ret.value {
        Some(value) => match expression(d, value) {
            Err(e) => Err(e),
            Ok(m) => Ok(emit(m, seq![OP_RETURN, OP_END_FUNCTION])),
        },
        None => Ok(emit(d, seq![OP_END_FUNCTION])),
    }
}

/// The code of a statement, after the code so far.
pub open spec fn statement(d: Draft, stmt: Statement) -> Outcome
    decreases stmt, 0nat,
{
    match stmt {
        Statement::Print(print) => print_statement(d, *print),
        Statement::FunctionBody(block) => function_body(d, *block),
        Statement::Break => break_jump(d),
        Statement::Block(block) => block_statement(d, *block),
        Statement::Expression(stmt) => expression_statement(d, *stmt),
        Statement::Return(ret) => return_statement(d, *ret),
        Statement::If(stmt) => if_statement(d, *stmt),
        Statement::Declaration(decl) => declaration(d, decl),
        Statement::MultiDeclaration(multi) => declarations(
            d,
            multi.declarations,
            multi.declarations.len() as nat,
        ),
        Statement::Loop(stmt) => loop_statement(d, *stmt),
    }
}

/// The body of a function: in a new frame whose first slot is kept for the
/// base of the caller's frame, and whose next slots are the parameters, the
/// statements; nothing is popped at the end.
pub open spec fn function_body(d: Draft, block: BlockStatement) -> Outcome
    decreases block, 2nat,
{
    match d.context {
        Scene::Function(name) => {
            let at = signature_position(d.active_func_args, name, 0);
            if at >= d.active_func_args.len() {
                Err("Something went wrong when compiling"@)
            } else {
                let framed = Draft {
                    scopes: frame_scopes(d.scopes, d.active_func_args[at].1),
                    ..d
                };
                match statements(framed, block.statements, block.statements.len() as nat) {
                    Err(e) => Err(e),
                    Ok(m) => leave(m),
                }
            }
        },
        _ => Err("Something went wrong when compiling"@),
    }
}

/// A block: in a new scope, the statements; then one pop for each local of
/// the scope.
pub open spec fn block_statement(d: Draft, block: BlockStatement) -> Outcome
    decreases block, 2nat,
{
    let inner = Draft {
        context: Scene::Block,
        scopes: d.scopes.push(Scope { frame_beginning: false, variables: Seq::empty() }),
        ..d
    };
    match statements(inner, block.statements, block.statements.len() as nat) {
        Err(e) => Err(e),
        Ok(m) => match leave(emit(m, pops(m.scopes.last().variables.len()))) {
            Err(e) => Err(e),
            Ok(m) => Ok(Draft { context: d.context, ..m }),
        },
    }
}

/// The condition, a jump over the body where it is false, the body; and
/// where there is an alternative, a jump over it after the body, and the
/// alternative.
pub open spec fn if_statement(d: Draft, stmt: IfStatement) -> Outcome
    decreases stmt, 2nat,
{
    match expression(d, stmt.condition) {
        Err(e) => Err(e),
        Ok(m) => {
            let place = (m.code.len() + 1) as int;
            match statement(emit(m, seq![OP_JUMP_IF_FALSE] + placeholder()), stmt.body) {
                Err(e) => Err(e),
                Ok(m) => if_end(m, stmt.alternative, place),
            }
        },
    }
}

/// What follows the body of a conditional: the target of the jump over the
/// body, which stands at `place`, is where the body ends, or, where there
/// is an alternative, after the jump over the alternative.
pub open spec fn if_end(d: Draft, alternative: Option<Statement>, place: int) -> Outcome
    decreases alternative, 1nat,
{
    match alternative {
        Some(alternative) => {
            let place_else = (d.code.len() + 1) as int;
            match patch(jump(d), place) {
                Err(e) => Err(e),
                Ok(m) => match statement(m, alternative) {
                    Err(e) => Err(e),
                    Ok(m) => patch(m, place_else),
                },
            }
        },
        None => patch(d, place),
    }
}

/// The body, a jump back to where it begins, and the target of every jump
/// out of the loop.
pub open spec fn loop_statement(d: Draft, stmt: LoopStatement) -> Outcome
    decreases stmt, 2nat,
{
    match statement(Draft { break_stmt: d.break_stmt.push(Seq::empty()), ..d }, stmt.body) {
        Err(e) => Err(e),
        Ok(m) => loop_end(m, d.code.len()),
    }
}

/// The code of the first `n` of the statements, in their order.
pub open spec fn statements(d: Draft, stmts: Vec<Statement>, n: nat) -> Outcome
    decreases stmts, n,
{
    if n == 0 || n > stmts.len() {
        Ok(d)
    } else {
        match statements(d, stmts, (n - 1) as nat) {
            Err(e) => Err(e),
            Ok(m) => statement(m, stmts[n - 1]),
        }
    }
}

/// The names of parameters.
pub open spec fn parameter_names(params: Seq<Identifier>) -> Seq<Seq<char>> {
    Seq::new(params.len(), |i: int| params[i].name@)
}

/// The code of a statement of the top of the program.
pub open spec fn global_statement(d: Draft, stmt: GlobalStatement) -> Outcome {
    match stmt {
        GlobalStatement::Statement(stmt) => statement(d, stmt),
        GlobalStatement::FunctionDeclaration(function) => function_declaration(d, function),
    }
}

/// A function is declared as a constant that goes to the slot of a global,
/// then a jump over the body, the body, and the end of the function; the
/// constant holds where the body begins.
pub open spec fn function_declaration(d: Draft, function: FunctionDeclarationStatement) -> Outcome {
    let name = function.name.name@;
    let place = (d.code.len() + 2) as int;
    if function.params.len() > 255 {
        Err("Too many parameters"@)
    } else {
        let constant = emit(
            Draft { context: Scene::Function(name), ..d },
            seq![OP_PUSH, Type::Function.tag()] + placeholder() + seq![function.params.len() as u8],
        );
        let declared = Draft {
            active_func_args: declare_signature(
                constant.active_func_args,
                name,
                parameter_names(function.params@),
            ),
            ..constant
        };
        match hash(emit(declared, seq![OP_DECLARE_GLOBAL]), name) {
            Err(e) => Err(e),
            Ok(m) => {
                let place_over = (m.code.len() + 1) as int;
                match patch(jump(m), place) {
                    Err(e) => Err(e),
                    Ok(m) => match statement(m, function.body) {
                        Err(e) => Err(e),
                        Ok(m) => match patch(emit(m, seq![OP_END_FUNCTION]), place_over) {
                            Err(e) => Err(e),
                            Ok(m) => Ok(Draft { context: d.context, ..m }),
                        },
                    },
                }
            },
        }
    }
}

/// The code of the first `n` statements of a program, in their order.
pub open spec fn program(d: Draft, stmts: Seq<GlobalStatement>, n: int) -> Outcome
    decreases n,
{
    if n <= 0 {
        Ok(d)
    } else {
        match program(d, stmts, n - 1) {
            Err(e) => Err(e),
            Ok(m) => global_statement(m, stmts[n - 1]),
        }
    }
}

} // verus!
