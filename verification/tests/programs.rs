use pantera::builtins::init_vm_globals;
use pantera::compiler::Compiler;
use pantera::gc::GC;
use pantera::heap::HeapManager;
use pantera::machine::NumberOp;
use pantera::output::Piece;
use pantera::parser::lexer::Lexer;
use pantera::parser::parser::Parser;
use pantera::parser::token::{Token, TokenType};
use pantera::stack::Stack;
use pantera::vm::{Answer, Request, Status, VM};

fn number_values(tokens: &Vec<Token>) -> Vec<u32> {
    tokens
        .iter()
        .map(|token| match &token.typ {
            TokenType::Number(text) => text.parse::<f32>().unwrap().to_bits(),
            _ => 0,
        })
        .collect()
}

fn power(base: f32, pow: u32) -> f32 {
    if pow == 0 {
        return 1.0;
    }
    if pow == 1 {
        return base;
    }
    let half = power(base, pow / 2);
    if pow % 2 == 0 {
        half * half
    } else {
        half * half * base
    }
}

fn compute(op: NumberOp, left: f32, right: f32) -> f32 {
    match op {
        NumberOp::Add => left + right,
        NumberOp::Sub => left - right,
        NumberOp::Mul => left * right,
        NumberOp::Div => left / right,
        NumberOp::Pow => {
            let pw = right as i32;
            if pw < 0 {
                1.0 / power(left, (-pw) as u32)
            } else {
                power(left, pw as u32)
            }
        }
    }
}

fn answer(request: &Request, input: &mut Vec<String>) -> Answer {
    match request {
        Request::Arithmetic(op, left, right) => {
            Answer::Number(compute(*op, f32::from_bits(*left), f32::from_bits(*right)).to_bits())
        }
        Request::ParseNumber(bytes) => match String::from_utf8_lossy(bytes).parse::<f32>() {
            Ok(number) => Answer::Number(number.to_bits()),
            Err(_) => Answer::NotANumber,
        },
        Request::Sleep(_) => Answer::Done,
        Request::Input => Answer::Line(if input.is_empty() {
            String::new()
        } else {
            input.remove(0)
        }),
    }
}

fn show(line: &Vec<Piece>) -> String {
    let mut text = String::new();
    for piece in line {
        match piece {
            Piece::Text(bytes) => text.push_str(&String::from_utf8_lossy(bytes)),
            Piece::Number(bits) => text.push_str(&f32::from_bits(*bits).to_string()),
        }
    }
    text
}

fn run_with(source: &str, max_heap_size: usize, input: Vec<String>) -> Result<Vec<String>, String> {
    let mut input = input;
    let tokens = match Lexer::new(source).scan_tokens() {
        Ok(tokens) => tokens,
        Err(e) => return Err(e.get_message()),
    };
    let values = number_values(&tokens);
    let parser = Parser::with_numbers(tokens, values);
    let compiled = Compiler::new(HeapManager::new(max_heap_size)).compile(parser)?;
    let mut vm = VM::new(
        compiled.code,
        Stack::init(),
        init_vm_globals(),
        GC::new(compiled.heap_manager),
    );
    loop {
        match vm.execute(100_000) {
            Err(e) => return Err(e.get_message()),
            Ok(Status::Finished) => break,
            Ok(Status::Running) => {}
            Ok(Status::Waiting) => {
                let reply = match &vm.pending {
                    Some(request) => answer(request, &mut input),
                    None => unreachable!(),
                };
                if let Err(e) = vm.resume(reply) {
                    return Err(e.get_message());
                }
            }
        }
    }
    Ok(vm.output.iter().map(show).collect())
}

fn run(source: &str) -> Result<Vec<String>, String> {
    run_with(source, 10 * 1024, Vec::new())
}

#[test]
fn arithmetic_precedence() {
    assert_eq!(run("print 7 -3 - 8 * 2;"), Ok(vec!["-12".to_string()]));
}

#[test]
fn variables_and_blocks() {
    assert_eq!(
        run("var a, b = 3; { var c = 10 + b; { var d = c + 2; print d; } print c; }"),
        Ok(vec!["15".to_string(), "13".to_string()])
    );
}

#[test]
fn string_interning_equality() {
    assert_eq!(
        run("var a = \"Test\"; var ab = \"Test\"; print ab is a;"),
        Ok(vec!["true".to_string()])
    );
}

#[test]
fn object_printing_with_one_key() {
    assert_eq!(run("var a = {k: 42}; print a;"), Ok(vec!["{ k: 42 }".to_string()]));
}

#[test]
fn object_printing_with_two_keys() {
    let lines = run("var a = {hello: 1, world: 2}; print a;").unwrap();
    assert_eq!(lines.len(), 1);
    assert!(
        lines[0] == "{ hello: 1, world: 2 }" || lines[0] == "{ world: 2, hello: 1 }",
        "{}",
        lines[0]
    );
}

#[test]
fn ranged_loop_with_break() {
    assert_eq!(
        run("loop 1..4 as i { print i; }"),
        Ok(vec!["1".to_string(), "2".to_string(), "3".to_string()])
    );
}

#[test]
fn functions_and_returns() {
    assert_eq!(
        run("fun add(a)and(b) { return a + b; } print add(3)and(4);"),
        Ok(vec!["7".to_string()])
    );
}

#[test]
fn gc_correctness_under_churn() {
    let source = "var keep = {k: 1}; loop 0..1000 as i { var t = {a: i}; } print keep;";
    assert_eq!(run_with(source, 12 * 859, Vec::new()), Ok(vec!["{ k: 1 }".to_string()]));
}

#[test]
fn churn_without_room_runs_out_of_memory() {
    let source = "var keep = {k: 1}; loop 0..1000 as i { var t = {a: i}; } print keep;";
    let result = run_with(source, 859, Vec::new());
    assert_eq!(
        result,
        Err("Runtime Error: OOM: Max heap size has been reached".to_string())
    );
}

#[test]
fn array_keeps_the_order_of_its_literal() {
    assert_eq!(
        run("var car = [1,22,3, 2343, 1234, \"test\"]; print car;"),
        Ok(vec!["[ 1, 22, 3, 2343, 1234, test ]".to_string()])
    );
}

#[test]
fn strings_are_added_left_then_right() {
    assert_eq!(run("print \"ab\" + \"cd\";"), Ok(vec!["abcd".to_string()]));
}

#[test]
fn else_branch_runs_where_the_condition_is_false() {
    assert_eq!(
        run("if 1 > 2 { print 1; } else { print 2; }"),
        Ok(vec!["2".to_string()])
    );
}

#[test]
fn function_without_return_gives_null() {
    assert_eq!(run("fun f(a) { var b = a; } print f(1);"), Ok(vec!["null".to_string()]));
}

#[test]
fn nested_calls_balance_their_frames() {
    assert_eq!(
        run("fun twice(a) { return a * 2; } fun f(a) { var b = twice(a); return b + 1; } print f(3); print f(4);"),
        Ok(vec!["7".to_string(), "9".to_string()])
    );
}

#[test]
fn power_of_whole_exponents() {
    assert_eq!(run("print 2 ^ 10;"), Ok(vec!["1024".to_string()]));
    assert_eq!(
        run("print 2 ^ 0.5;"),
        Err("Runtime Error: Pow being a float number is not supported".to_string())
    );
}

#[test]
fn members_are_read_and_written() {
    assert_eq!(
        run("var o = {a: 1}; o's a = 5; o's b = 6; print o's a + o's b; print o's c;"),
        Ok(vec!["11".to_string(), "null".to_string()])
    );
}

#[test]
fn array_items_are_read_and_written() {
    assert_eq!(
        run("var a = [1, 2, 3]; a's 1 = 7; print a's 1; print a's 5; print len(a);"),
        Ok(vec!["7".to_string(), "null".to_string(), "3".to_string()])
    );
}

#[test]
fn builtins_wait_for_the_host() {
    assert_eq!(
        run_with("print atoi(input()) + 1;", 10 * 1024, vec!["41".to_string()]),
        Ok(vec!["42".to_string()])
    );
    assert_eq!(
        run_with("print atoi(input());", 10 * 1024, vec!["x".to_string()]),
        Err("Runtime Error: Argument is not a stringified number".to_string())
    );
    assert_eq!(run("print sleep(0);"), Ok(vec!["null".to_string()]));
}

#[test]
fn semantic_errors_are_reported_together() {
    assert_eq!(
        run("var len = 1; break; return;"),
        Err("\nCompiler Error: Cannot declare a variable with a name from std lib\nCompiler Error: Break statement outside loop is not allowed\nCompiler Error: Cannot return outside function".to_string())
    );
}

#[test]
fn constants_cannot_be_reassigned() {
    assert_eq!(
        run("{ const a = 1; a = 2; }"),
        Err("Compiler Error: Cannot reassign a variable declared as const".to_string())
    );
    assert_eq!(
        run("{ const a; }"),
        Err("Compiler Error: Cannot declare a variable with no value as const".to_string())
    );
}

#[test]
fn unknown_global_is_a_runtime_error() {
    assert_eq!(run("print nothing;"), Err("Runtime Error: Variable doesn't exist".to_string()));
}

#[test]
fn mixed_kinds_are_not_equal() {
    assert_eq!(
        run("print 1 is \"1\"; print 1 is not \"1\"; print null is null; print 1 == 1; print 1 != 1;"),
        Ok(vec![
            "false".to_string(),
            "true".to_string(),
            "true".to_string(),
            "true".to_string(),
            "false".to_string()
        ])
    );
}
