use pantera::ast::expression::{Expression, Operator};
use pantera::ast::statement::{DeclarationKind, GlobalStatement, Statement};
use pantera::errors::ParseError;
use pantera::parser::lexer::Lexer;
use pantera::parser::parser::{Parser, FUNCTION_NAME_SEPARATOR};
use pantera::parser::token::TokenType;

fn parse(input: &str) -> Result<Vec<GlobalStatement>, ParseError> {
    let tokens = Lexer::new(input).scan_tokens().unwrap();
    let values = tokens
        .iter()
        .map(|token| match &token.typ {
            TokenType::Number(text) => text.parse::<f32>().unwrap().to_bits(),
            _ => 0,
        })
        .collect();
    Parser::with_numbers(tokens, values).parse_program()
}

fn get_new_parser(input: &str) -> Vec<GlobalStatement> {
    let rez = parse(input);
    if rez.is_err() {
        assert!(false);
    }
    rez.unwrap()
}

fn is_number(expr: &Expression, value: f32) -> bool {
    matches!(expr, Expression::Number(bits) if f32::from_bits(*bits) == value)
}

#[test]
pub fn test_parse_identifier() {
    let result = get_new_parser("x;");
    assert_eq!(result.len(), 1);
    let stmt = result.get(0).unwrap();
    if let GlobalStatement::Statement(Statement::Expression(expr)) = stmt {
        assert_eq!(expr.expr.get_identifier().unwrap(), "x");
        return;
    }
    assert!(false);
}

#[test]
pub fn test_parse_declaration() {
    let result = get_new_parser("var x = 3;");
    assert_eq!(result.len(), 1);

    let stmt = result.get(0).unwrap();
    if let GlobalStatement::Statement(Statement::Declaration(ref stmt)) = stmt {
        if let Some(Expression::Number(x)) = stmt.value {
            assert_eq!(f32::from_bits(x), 3f32);
        }
        assert_eq!(stmt.variable, "x");
        assert!(matches!(stmt.kind, DeclarationKind::Var));
        return;
    }
    assert!(false);
}

#[test]
pub fn test_if_statement() {
    let result = get_new_parser("if true {x;} s;");
    assert_eq!(result.len(), 2);
    let stmt = result.get(0).unwrap();
    if let GlobalStatement::Statement(Statement::If(expr)) = stmt {
        assert!(expr.alternative.is_none());
        assert!(matches!(expr.condition, Expression::Bool(true)));
        assert!(matches!(expr.body, Statement::Block(_)));
        if let Statement::Block(block) = &expr.body {
            assert_eq!(block.statements.len(), 1);
        } else {
            assert!(false);
        }
        return;
    }
    assert!(false);
}

#[test]
pub fn test_loop_statement() {
    let result = get_new_parser("loop 1..3 {print it;}");
    assert_eq!(result.len(), 1);
    let stmt = result.get(0).unwrap();
    if let GlobalStatement::Statement(Statement::Block(loop_stmt)) = stmt {
        assert_eq!(loop_stmt.statements.len(), 2);

        assert!(loop_stmt.statements.get(0).is_some_and(|x| matches!(*x, Statement::Declaration(_))));
        assert!(loop_stmt.statements.get(1).is_some_and(|x| matches!(*x, Statement::Loop(_))));
        return;
    }
    assert!(false);
}

#[test]
pub fn test_function_declaration() {
    let result = get_new_parser("fun check(a)greater_than(b) {return a > b;}");
    assert_eq!(result.len(), 1);

    if let GlobalStatement::FunctionDeclaration(ref func_dec) = result.get(0).unwrap() {
        // function params
        assert_eq!(func_dec.params.len(), 2);
        assert!(func_dec.params.get(0).is_some_and(|x| x.name == "a"));
        assert!(func_dec.params.get(1).is_some_and(|x| x.name == "b"));

        // function name
        assert_eq!(func_dec.name.name, "check_greater_than".to_string());

        // function body
        assert!(matches!(func_dec.body, Statement::FunctionBody(_)));
    } else {
        assert!(false);
    }
}

#[test]
pub fn test_function_declaration_multiple_params() {
    let result = get_new_parser("fun check(a,b) {return a > b;}");
    assert_eq!(result.len(), 1);

    if let GlobalStatement::FunctionDeclaration(ref func_dec) = result.get(0).unwrap() {
        // function params
        assert_eq!(func_dec.params.len(), 2);
        assert!(func_dec.params.get(0).is_some_and(|x| x.name == "a"));
        assert!(func_dec.params.get(1).is_some_and(|x| x.name == "b"));

        // function name
        assert_eq!(func_dec.name.name, "check".to_string());

        // function body
        assert!(matches!(func_dec.body, Statement::FunctionBody(_)));
    } else {
        assert!(false);
    }
}

#[test]
pub fn test_procedure() {
    let result = get_new_parser("fun check {return a > b;}");
    assert_eq!(result.len(), 1);

    if let GlobalStatement::FunctionDeclaration(ref func_dec) = result.get(0).unwrap() {
        // function params
        assert_eq!(func_dec.params.len(), 0);

        // function name
        assert_eq!(func_dec.name.name, "check".to_string());

        // function body
        assert!(matches!(func_dec.body, Statement::FunctionBody(_)));
    } else {
        assert!(false);
    }
}

#[test]
pub fn test_or_expression() {
    let result = get_new_parser("x^2 or true;");
    assert_eq!(result.len(), 1);

    if let GlobalStatement::Statement(Statement::Expression(ref wrapper)) = result.get(0).unwrap() {
        if let Expression::Binary(ref expr) = wrapper.expr {
            assert!(matches!(expr.right, Expression::Bool(true)));
            assert!(matches!(expr.operator, Operator::Or));

            if let Expression::Binary(ref left) = expr.left {
                assert!(matches!(left.left, Expression::Identifier(_)));
                assert!(matches!(left.operator, Operator::Pow));
                assert!(is_number(&left.right, 2.0))
            } else {
                assert!(false);
            }
        } else {
            assert!(false);
        }
    } else {
        assert!(false);
    }
}

#[test]
pub fn test_and_expression() {
    let result = get_new_parser("3 and 4 + 7^2;");
    assert_eq!(result.len(), 1);

    if let GlobalStatement::Statement(Statement::Expression(ref wrapper)) = result.get(0).unwrap() {
        if let Expression::Binary(ref expr) = wrapper.expr {
            assert!(is_number(&expr.left, 3.0));
            assert!(matches!(expr.operator, Operator::And));

            if let Expression::Binary(ref right) = expr.right {
                assert!(is_number(&right.left, 4.0));
                assert!(matches!(right.operator, Operator::Plus));
                if let Expression::Binary(ref last) = right.right {
                    assert!(is_number(&last.left, 7.0));
                    assert!(matches!(last.operator, Operator::Pow));
                    assert!(is_number(&last.right, 2.0));
                } else {
                    assert!(false);
                }
            } else {
                assert!(false);
            }
        } else {
            assert!(false);
        }
    } else {
        assert!(false);
    }
}

#[test]
pub fn test_pow_expression() {
    let result = get_new_parser("-7^x;");
    assert_eq!(result.len(), 1);

    if let GlobalStatement::Statement(Statement::Expression(ref wrapper)) = result.get(0).unwrap() {
        if let Expression::Unary(ref expr) = wrapper.expr {
            assert!(matches!(expr.operator, Operator::Minus));

            if let Expression::Binary(ref right) = expr.expr {
                assert!(is_number(&right.left, 7.0));
                assert!(matches!(right.operator, Operator::Pow));
                assert!(matches!(right.right, Expression::Identifier(_)));
            } else {
                assert!(false);
            }
        } else {
            assert!(false);
        }
    } else {
        assert!(false);
    }
}

#[test]
pub fn test_function_call() {
    let result = get_new_parser("check(a)greater_than(b);");
    assert_eq!(result.len(), 1);

    if let GlobalStatement::Statement(Statement::Expression(ref func_call)) = result.get(0).unwrap() {
        if let Expression::Call(ref call) = func_call.expr {
            // function args
            assert_eq!(call.args.len(), 2);

            assert!(matches!(call.args.get(0).unwrap(), Expression::Identifier(_)));
            assert!(matches!(call.args.get(1).unwrap(), Expression::Identifier(_)));

            // function name
            assert!(matches!(call.callee, Expression::Identifier(_)));
        } else {
            assert!(false);
        }
    } else {
        assert!(false);
    }
}

#[test]
pub fn test_procedure_call() {
    let result = get_new_parser("check_greater_than();");
    assert_eq!(result.len(), 1);

    if let GlobalStatement::Statement(Statement::Expression(ref func_call)) = result.get(0).unwrap() {
        if let Expression::Call(ref call) = func_call.expr {
            // function args
            assert_eq!(call.args.len(), 0);

            // function name
            assert!(matches!(call.callee, Expression::Identifier(_)));
        } else {
            assert!(false);
        }
    } else {
        assert!(false);
    }
}

#[test]
pub fn test_member() {
    let result = get_new_parser("a's b's c;");
    assert_eq!(result.len(), 1);

    if let GlobalStatement::Statement(Statement::Expression(ref func_call)) = result.get(0).unwrap() {
        if let Expression::Member(ref member) = func_call.expr {
            // function args
            assert!(matches!(member.callee, Expression::Member(_)));

            assert!(matches!(member.property, Expression::String(_)));
        } else {
            assert!(false);
        }
    } else {
        assert!(false);
    }
}

#[test]
pub fn test_member_call() {
    let result = get_new_parser("a's b();");
    assert_eq!(result.len(), 1);

    if let GlobalStatement::Statement(Statement::Expression(ref func_call)) = result.get(0).unwrap() {
        if let Expression::Call(ref call) = func_call.expr {
            if let Expression::Member(ref mem) = call.callee {
                assert_eq!(mem.callee.get_identifier().unwrap(), "a");
            } else {
                assert!(false);
            }

            assert_eq!(call.args.len(), 0);
        } else {
            assert!(false);
        }
    } else {
        assert!(false);
    }
}

#[test]
pub fn test_member_call_intertwined() {
    let result = get_new_parser("a's b(x)c;");
    assert_eq!(result.len(), 1);

    if let GlobalStatement::Statement(Statement::Expression(ref func_call)) = result.get(0).unwrap() {
        if let Expression::Call(ref call) = func_call.expr {
            if let Expression::Member(ref mem) = call.callee {
                assert_eq!(mem.callee.get_identifier().unwrap(), "a");
            } else {
                assert!(false);
            }

            assert_eq!(call.args.len(), 1);
        } else {
            assert!(false);
        }
    } else {
        assert!(false);
    }
}

#[test]
pub fn test_call_member() {
    let result = get_new_parser("b(x)c's a;");
    assert_eq!(result.len(), 1);

    if let GlobalStatement::Statement(Statement::Expression(ref func_call)) = result.get(0).unwrap() {
        if let Expression::Member(ref member) = func_call.expr {
            if let Expression::Call(ref call) = member.callee {
                assert_eq!(call.callee.get_identifier().unwrap(), &format!("b{}c", FUNCTION_NAME_SEPARATOR));
                assert_eq!(call.args.len(), 1);
            } else {
                assert!(false);
            }
        } else {
            assert!(false);
        }
    } else {
        assert!(false);
    }
}

#[test]
pub fn test_call_call() {
    let result = get_new_parser("(a())(v, c);");
    assert_eq!(result.len(), 1);

    if let GlobalStatement::Statement(Statement::Expression(ref func_call)) = result.get(0).unwrap() {
        if let Expression::Call(ref call) = func_call.expr {
            if let Expression::Group(ref call_call) = call.callee {
                assert!(matches!(call_call.expr, Expression::Call(_)));
            } else {
                assert!(false);
            }

            assert_eq!(call.args.len(), 2);
        } else {
            assert!(false);
        }
    } else {
        assert!(false);
    }
}

#[test]
pub fn test_object() {
    let result = get_new_parser("{a: 3, \"b\": a + 4, 23.2: a^2};");
    assert_eq!(result.len(), 1);

    if let GlobalStatement::Statement(Statement::Expression(ref obj)) = result.get(0).unwrap() {
        if let Expression::Object(ref object) = obj.expr {
            assert_eq!(object.properties.len(), 3);
            assert_eq!(object.values.len(), 3);
        } else {
            assert!(false);
        }
    } else {
        assert!(false);
    }
}

fn error_of(input: &str) -> String {
    match parse(input) {
        Ok(_) => panic!("parsed"),
        Err(e) => e.message,
    }
}

#[test]
fn parse_errors_name_what_is_missing() {
    assert_eq!(error_of("print 1"), "Expected ; at the end of the statement");
    assert_eq!(error_of("1 = 2;"), "Incorrect lvalue");
    assert_eq!(error_of("if true x;"), "Expected { after if statement condition");
    assert_eq!(error_of("{ x;"), "Expected } at the end of a block statement");
    assert_eq!(error_of("var 1;"), "Assignee has to be a variable");
    assert_eq!(error_of("var a b;"), "Expected , in between declaring multiple variables");
    assert_eq!(error_of("f(1;"), "Expected ')' after arguments definitions");
    assert_eq!(error_of("(1;"), "Expected ')' at the end of expression");
    assert_eq!(error_of(";"), "Expression expected");
    assert_eq!(error_of("x = {a 1};"), "Key value pairs must be separated by :");
    assert_eq!(error_of("x = {true: 1};"), "Object key must be an identifier, string or number");
    assert_eq!(error_of("fun {}"), "Expected function name");
    assert_eq!(error_of("fun f() {}"), "Expected formal function parameter definition");
    assert_eq!(error_of("fun f(a b) {}"), "Expected comma to separate function parameter");
    assert_eq!(error_of("fun f 1 {}"), "Cannot have chained params list in the function declaration");
    assert_eq!(error_of("loop 1..2 as 3 {}"), "Expected identifier after as keyword");
    assert_eq!(error_of("loop 1..2 x;"), "Expected { after loop declaration");
    assert_eq!(error_of("loop 1 {}"), "Expected a range after loop");
}

#[test]
fn a_number_without_a_value_is_an_error() {
    let tokens = Lexer::new("1;").scan_tokens().unwrap();
    let error = Parser::new(tokens).parse_program().unwrap_err();
    assert_eq!(error.message, "Number literal has no value");
}

#[test]
fn reverse_loop_counts_down() {
    let result = get_new_parser("loop reverse 1..3 as i {print i;}");
    let GlobalStatement::Statement(Statement::Block(block)) = result.get(0).unwrap() else {
        panic!("not a block")
    };
    let Statement::Declaration(init) = block.statements.get(0).unwrap() else {
        panic!("not a declaration")
    };
    assert_eq!(init.variable, "i");
    assert!(is_number(init.value.as_ref().unwrap(), 3.0));
    let Statement::Loop(inner) = block.statements.get(1).unwrap() else { panic!("not a loop") };
    assert_eq!(inner.alias, "i");
    let Statement::Block(body) = &inner.body else { panic!("not a block") };
    assert_eq!(body.statements.len(), 3);
    let Statement::If(exit) = body.statements.get(2).unwrap() else { panic!("not an if") };
    let Expression::Binary(condition) = &exit.condition else { panic!("not a comparison") };
    assert!(matches!(condition.operator, Operator::Le));
    assert!(is_number(&condition.right, 1.0));
    assert!(matches!(exit.body, Statement::Break));
}
