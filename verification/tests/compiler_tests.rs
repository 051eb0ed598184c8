use pantera::ast::expression::{BinaryExpression, Expression, Operator};
use pantera::ast::statement::{
    BlockStatement, DeclarationKind, DeclarationStatement, ExpressionStatement, GlobalStatement,
    PrintStatement, Statement,
};
use pantera::builtins::{init_compiler_globals, init_vm_globals};
use pantera::compiler::{Compiler, Context};
use pantera::env::Env;
use pantera::errors::{CompilerError, ParseError, RuntimeError};
use pantera::heap::HeapManager;
use pantera::parser::lexer::Lexer;
use pantera::parser::parser::Parser;
use pantera::parser::token::TokenType;
use pantera::semantic::break_statement_check::check_breaks;
use pantera::semantic::check::Check;
use pantera::semantic::declaration_check::{check_declarations, DeclarationCheck};
use pantera::semantic::report::run_all_semantic_checks;
use pantera::semantic::return_statement_check::{check_returns, ReturnStatementCheck};
use pantera::value::{FunctionValue, Value};

fn parse(input: &str) -> Vec<GlobalStatement> {
    let tokens = Lexer::new(input).scan_tokens().unwrap();
    let values = tokens
        .iter()
        .map(|token| match &token.typ {
            TokenType::Number(text) => text.parse::<f32>().unwrap().to_bits(),
            _ => 0,
        })
        .collect();
    Parser::with_numbers(tokens, values).parse_program().unwrap()
}

fn compile(input: &str) -> Result<Vec<u8>, String> {
    let program = parse(input);
    Compiler::new(HeapManager::new(10 * 1024)).compile_program(&program).map(|done| done.code)
}

fn target(value: usize) -> [u8; 4] {
    (value as f32).to_le_bytes()
}

fn number(value: f32) -> Vec<u8> {
    let mut bytes = vec![8, 1];
    bytes.extend(value.to_le_bytes());
    bytes
}

#[test]
fn emitters_write_the_bytes_of_constants() {
    let mut compiler = Compiler::new(HeapManager::new(1024));
    compiler.emit_byte(7);
    compiler.emit_bytes(1, 2);
    compiler.emit_null();
    compiler.emit_boolean(true);
    compiler.emit_boolean(false);
    compiler.emit_number(1.5f32.to_bits());
    compiler.emit_temp_byte();
    assert_eq!(
        compiler.code,
        vec![7, 1, 2, 8, 7, 8, 2, 1, 8, 2, 0, 8, 1, 0, 0, 0xc0, 0x3f, 0, 0, 0, 0]
    );
    assert_eq!(Compiler::convert_bool_to_byte(true), 1);
    assert_eq!(Compiler::convert_bool_to_byte(false), 0);
    assert!(Compiler::convert_bool_from_byte(1));
    assert!(!Compiler::convert_bool_from_byte(2));
    assert_eq!(Compiler::convert_number_to_bytes(1.5f32.to_bits()), 1.5f32.to_le_bytes());
    assert_eq!(Compiler::convert_number_from_bytes(2.5f32.to_le_bytes()), 2.5f32.to_bits());
    assert!(matches!(compiler.context, Context::Global));
}

#[test]
fn jumps_are_patched_with_the_length_of_the_code() {
    let mut compiler = Compiler::new(HeapManager::new(1024));
    let place = compiler.emit_jump();
    assert_eq!(place, 1);
    compiler.emit_byte(7);
    assert!(compiler.back_patch(place).is_ok());
    let mut expected = vec![26];
    expected.extend(target(6));
    expected.push(7);
    assert_eq!(compiler.code, expected);
    let error = compiler.back_patch(3).unwrap_err();
    assert_eq!(error.message, "Something went wrong when compiling");
}

#[test]
fn globals_take_their_slots_in_order() {
    let mut compiler = Compiler::new(HeapManager::new(1024));
    assert!(compiler.emit_hash("atoi".to_string()).is_ok());
    assert!(compiler.emit_hash("first".to_string()).is_ok());
    assert!(compiler.emit_hash("second".to_string()).is_ok());
    assert!(compiler.emit_hash("first".to_string()).is_ok());
    assert_eq!(compiler.code, vec![3, 0, 5, 0, 6, 0, 5, 0]);
    assert_eq!(
        init_compiler_globals(),
        vec!["len", "sleep", "input", "atoi", "internal_iterable_get"]
    );
    let globals = init_vm_globals();
    assert_eq!(globals.len(), 5);
    assert_eq!(globals[4], Some(Value::Function(FunctionValue::Builtin(4))));
}

#[test]
fn expressions_are_compiled_operands_first() {
    let mut expected = number(7.0);
    expected.extend(number(3.0));
    expected.push(3);
    expected.extend(number(8.0));
    expected.extend(number(2.0));
    expected.push(5);
    expected.push(3);
    expected.push(1);
    assert_eq!(compile("print 7 -3 - 8 * 2;"), Ok(expected));
}

#[test]
fn members_calls_and_literals_are_laid_out() {
    let code = compile("o's k; f(1); [true]; {k: null};").unwrap();
    let mut expected = vec![8, 4, 1, 0, 0, 0, 0, 0, 0, 0, 8, 22, 5, 0, 32, 7];
    expected.extend(number(1.0));
    expected.extend(vec![8, 22, 6, 0, 28, 7]);
    expected.extend(vec![8, 2, 1]);
    expected.extend(number(1.0));
    expected.extend(vec![31, 7]);
    expected.extend(vec![8, 4, 1, 0, 0, 0, 0, 0, 0, 0, 8, 7]);
    expected.extend(number(1.0));
    expected.extend(vec![30, 7]);
    assert_eq!(code, expected);
}

#[test]
fn blocks_pop_their_locals() {
    let code = compile("{ var a = true; var b; a = b; }").unwrap();
    assert_eq!(code, vec![8, 2, 1, 19, 8, 21, 1, 23, 0, 7, 7, 7]);
}

#[test]
fn conditionals_and_loops_jump_to_instructions() {
    let code = compile("if true { print 1; } else { print 2; } loop { break; }").unwrap();
    let mut expected = vec![8, 2, 1, 25];
    expected.extend(target(20));
    expected.extend(number(1.0));
    expected.push(1);
    expected.push(26);
    expected.extend(target(27));
    expected.extend(number(2.0));
    expected.push(1);
    expected.push(26);
    expected.extend(target(37));
    expected.push(26);
    expected.extend(target(27));
    assert_eq!(code, expected);
}

#[test]
fn functions_are_constants_that_point_at_their_body() {
    let code = compile("fun f(a) { return a; }").unwrap();
    let mut expected = vec![8, 3];
    expected.extend(target(15));
    expected.push(1);
    expected.extend(vec![20, 5, 0, 26]);
    expected.extend(target(21));
    expected.extend(vec![8, 21, 1, 29, 27, 27]);
    assert_eq!(code, expected);
}

#[test]
fn string_constants_hold_the_handle_of_the_interned_text() {
    let program = parse("\"b\"; \"a\"; \"b\";");
    let mut heap = HeapManager::new(1024);
    let a = heap.allocate_string("a".to_string()).unwrap();
    let done = Compiler::new(heap).compile_program(&program).unwrap();
    let b = done.heap_manager.check_string_is_interned("b").unwrap();
    assert_eq!((a, b), (1, 2));
    assert!(done.heap_manager.memory[1].flag);
    assert!(!done.heap_manager.memory[0].flag);
    let constant = |ptr: u64| {
        let mut bytes = vec![8, 4];
        bytes.extend(ptr.to_le_bytes());
        bytes.push(7);
        bytes
    };
    let mut expected = constant(b);
    expected.extend(constant(a));
    expected.extend(constant(b));
    assert_eq!(done.code, expected);
}

#[test]
fn compile_errors_end_the_compilation() {
    let binary = Expression::Binary(Box::new(BinaryExpression {
        left: Expression::Nil,
        operator: Operator::Mod,
        right: Expression::Nil,
    }));
    let mut compiler = Compiler::new(HeapManager::new(1024));
    assert_eq!(compiler.visit_expression(&binary).unwrap_err().message, "Operator not supported");
    let mut compiler = Compiler::new(HeapManager::new(1024));
    assert_eq!(
        compiler.visit_local_statement(&Statement::Break).unwrap_err().message,
        "Break statement outside loop is not allowed"
    );
    let mut compiler = Compiler::new(HeapManager::new(1024));
    let body = Statement::FunctionBody(Box::new(BlockStatement { statements: vec![] }));
    assert_eq!(
        compiler.visit_local_statement(&body).unwrap_err().message,
        "Something went wrong when compiling"
    );
    let mut compiler = Compiler::new(HeapManager::new(3));
    let text = Statement::Print(Box::new(PrintStatement { expr: Expression::String("abc".to_string()) }));
    assert_eq!(
        compiler.visit_local_statement(&text).unwrap_err().message,
        "OOM: Max heap size has been reached"
    );
    assert_eq!(compile("-true; not 1;").map(|code| code.len()), Ok(13));
    assert_eq!(
        compile("{ const a = 1; a = 2; }"),
        Err("Compiler Error: Cannot reassign a variable declared as const".to_string())
    );
}

#[test]
fn scopes_resolve_names_up_to_the_frame() {
    let mut global = Env::new();
    global.set_variable("g".to_string());
    let mut frame = Env::new_frame(Box::new(global));
    frame.set_variable("__offset__".to_string());
    frame.set_constant("a".to_string());
    let mut block = Env::new_local(Box::new(frame));
    block.set_variable("b".to_string());
    assert_eq!(block.compute_var_key(), 3);
    assert_eq!(block.get_variable(&"b".to_string()).map(|v| (v.key, v.is_constant)), Some((2, false)));
    assert_eq!(block.get_variable(&"a".to_string()).map(|v| (v.key, v.is_constant)), Some((1, true)));
    assert_eq!(block.get_variable(&"g".to_string()), None);
    block.set_variable("b".to_string());
    assert_eq!(block.get_variable(&"b".to_string()).map(|v| v.key), Some(3));
    assert_eq!(block.variables.len(), 1);
}

#[test]
fn checks_find_their_errors_in_order() {
    let program = parse("loop { break; if true { break; } } break; fun f { break; loop { return; } } return;");
    assert_eq!(check_breaks(&program).len(), 2);
    assert_eq!(check_returns(&program).len(), 1);
    let program = parse("var len = 1; { const atoi; sleep = 2; x = (input = 3); } fun f { var ok = len; }");
    let errors = check_declarations(&program, init_compiler_globals());
    let messages: Vec<String> = errors.iter().map(|e| e.message.clone()).collect();
    assert_eq!(
        messages,
        vec![
            "Cannot declare a variable with a name from std lib",
            "Cannot declare a variable with a name from std lib",
            "Cannot reassign a variable with name from std lib",
            "Cannot reassign a variable with name from std lib",
        ]
    );
    assert_eq!(run_all_semantic_checks(&parse("var a = 1; print a;")), Ok(()));
    assert_eq!(
        run_all_semantic_checks(&parse("return;")),
        Err("\nCompiler Error: Cannot return outside function".to_string())
    );
    let mut check = ReturnStatementCheck::new();
    check.visit_statement(&parse("return;")[0]);
    assert_eq!(check.get_errors().len(), 1);
    let mut check = DeclarationCheck::new(vec!["x".to_string()]);
    check.visit_local_statement(&Statement::Declaration(DeclarationStatement {
        kind: DeclarationKind::Var,
        variable: "x".to_string(),
        value: None,
    }));
    check.visit_local_statement(&Statement::Expression(Box::new(ExpressionStatement {
        expr: Expression::Identifier("x".to_string()),
    })));
    assert_eq!(check.get_errors().len(), 1);
}

#[test]
fn errors_say_their_kind() {
    assert_eq!(CompilerError::new("x").get_message(), "Compiler Error: x");
    assert_eq!(ParseError::new("y", 3).get_message(), "Parser Error: y");
    assert_eq!(RuntimeError::new("z").get_message(), "Runtime Error: z");
}
